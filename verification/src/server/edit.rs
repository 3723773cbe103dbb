//! Opening an editor.

use vstd::prelude::*;

use crate::server::query::{
    law_location_parts_are_read_back, law_value_is_read_back, location_part, query_value,
};
use crate::server::query::{parse_location_string, parse_query_value};
use crate::server::reply::Failure;
use crate::server::reply::{server_failure, FailureView, Status};
use crate::text::{joined, replace_text, split_text};
use crate::text::{
    holds, join, law_replace_absent, law_replace_goes_on_behind, occurs_at, replace, split,
};

verus! {

/// The `Debug` form of an optional text that is there.
pub uninterp spec fn some_debug(text: Seq<char>) -> Seq<char>;

/// The `Debug` form of a query.
pub open spec fn query_debug(query: Option<Seq<char>>) -> Seq<char> {
    match query {
        Some(text) => some_debug(text),
        None => "None"@,
    }
}

/// The `Debug` form of an optional text: `None`, or a function of the text; how
/// its characters are escaped is left to the standard library.
#[verifier::external_body]
pub(crate) fn debug_text(query: &Option<String>) -> (r: String)
    ensures
        query is None ==> r@ == "None"@,
        query matches Some(text) ==> r@ == some_debug(text@),
{
    format!("{:?}", query)
}

/// The command that opens an editor at a location such as `file:line:column`: the
/// words of the configured command, with the parts of the location put in. There
/// is none if no command is configured.
pub open spec fn edit_words(edit_command: Seq<char>, location: Seq<char>) -> Option<Seq<Seq<char>>> {
    if edit_command.len() == 0 {
        None
    } else {
        Some(
            split(
                replace(
                    replace(
                        replace(edit_command, "$file"@, location_part(location, 0)),
                        "$line"@,
                        location_part(location, 1),
                    ),
                    "$col"@,
                    location_part(location, 2),
                ),
                ' ',
            ),
        )
    }
}

/// The words of the command that opens an editor at a location.
pub fn edit_command_line(edit_command: &str, location: &str) -> (r: Option<Vec<String>>)
    ensures
        r.deep_view() == edit_words(edit_command@, location@),
        r matches Some(words) ==> words.len() > 0,
{
    let args = parse_location_string(location);
    if edit_command.is_empty() {
        return None;
    }
    proof {
        reveal_strlit("$file");
        reveal_strlit("$line");
        reveal_strlit("$col");
    }
    assert(args@[0]@ == location_part(location@, 0));
    assert(args@[1]@ == location_part(location@, 1));
    assert(args@[2]@ == location_part(location@, 2));
    let with_file = replace_text(edit_command, "$file", args[0].as_str());
    let with_line = replace_text(with_file.as_str(), "$line", args[1].as_str());
    let command = replace_text(with_line.as_str(), "$col", args[2].as_str());
    Some(split_text(command.as_str(), ' '))
}

/// What comes of a request for an editor: the words of the command to run, if
/// there is one, or a failure if the query names no file.
pub open spec fn edit_of(edit_command: Seq<char>, query: Option<Seq<char>>) -> Result<
    Option<Seq<Seq<char>>>,
    FailureView,
> {
    match query_value(query, "file="@) {
        Some(location) => Ok(edit_words(edit_command, location)),
        None => Err(server_failure("Bad query string: "@ + query_debug(query))),
    }
}

/// The view of the words of a command, or of why there is none.
pub open spec fn edit_view(r: Result<Option<Vec<String>>, Failure>) -> Result<
    Option<Seq<Seq<char>>>,
    FailureView,
> {
    match r {
        Ok(words) => Ok(words.deep_view()),
        Err(failure) => Err(failure@),
    }
}

/// What comes of a request for an editor. Whether the command then runs makes no
/// difference to the client.
pub fn handle_edit(
    demo_mode: bool,
    unstable_features: bool,
    edit_command: &str,
    query: &Option<String>,
) -> (r: Result<Option<Vec<String>>, Failure>)
    requires
        !demo_mode,
        unstable_features,
    ensures
        edit_view(r) == edit_of(edit_command@, query.deep_view()),
        r matches Ok(Some(words)) ==> words.len() > 0,
        query is None ==> (r matches Err(failure) && failure@ == server_failure(
            "Bad query string: "@ + "None"@,
        )),
{
    match parse_query_value(query, "file=") {
        Some(location) => Ok(edit_command_line(edit_command, location.as_str())),
        None => {
            let debug = debug_text(query);
            Err(Failure::new(joined("Bad query string: ", debug.as_str())))
        },
    }
}

/// A command that names no part of a location is run as it is configured.
pub proof fn law_command_without_places_is_kept(edit_command: Seq<char>, location: Seq<char>)
    requires
        edit_command.len() > 0,
        !holds(edit_command, "$file"@),
        !holds(edit_command, "$line"@),
        !holds(edit_command, "$col"@),
    ensures
        edit_words(edit_command, location) == Some(split(edit_command, ' ')),
{
    reveal_strlit("$file");
    reveal_strlit("$line");
    reveal_strlit("$col");
    law_replace_absent(edit_command, "$file"@, location_part(location, 0));
    law_replace_absent(edit_command, "$line"@, location_part(location, 1));
    law_replace_absent(edit_command, "$col"@, location_part(location, 2));
}

proof fn lemma_put_in(a: Seq<char>, mark: Seq<char>, b: Seq<char>, to: Seq<char>)
    requires
        mark.len() > 1,
        mark[0] == '$',
        !a.contains('$'),
        !b.contains('$'),
    ensures
        replace(a + mark + b, mark, to) == a + to + b,
{
    let s = a + mark + b;
    assert forall|j: int| 0 <= j < a.len() implies !occurs_at(s, mark, j) by {
        if occurs_at(s, mark, j) {
            assert(s.subrange(j, j + mark.len())[0] == '$');
            assert(a[j] == '$');
        }
    }
    law_replace_goes_on_behind(a, mark, b, to);
    lemma_no_mark(b, mark);
    law_replace_absent(b, mark, to);
}

proof fn lemma_no_mark(s: Seq<char>, mark: Seq<char>)
    requires
        mark.len() > 1,
        mark[0] == '$',
        !s.contains('$'),
    ensures
        !holds(s, mark),
{
    if holds(s, mark) {
        let i = choose|i: int| occurs_at(s, mark, i);
        assert(s.subrange(i, i + mark.len())[0] == '$');
        assert(s[i] == '$');
    }
}

proof fn lemma_other_mark(a: Seq<char>, mark: Seq<char>, b: Seq<char>, other: Seq<char>)
    requires
        mark.len() > 1,
        other.len() > 1,
        mark[0] == '$',
        other[0] == '$',
        mark[1] != other[1],
        forall|k: int| 1 <= k < mark.len() ==> mark[k] != '$',
        !a.contains('$'),
        !b.contains('$'),
    ensures
        !holds(a + mark + b, other),
{
    let s = a + mark + b;
    if holds(s, other) {
        let i = choose|i: int| occurs_at(s, other, i);
        let part = s.subrange(i, i + other.len());
        assert(part == other);
        assert(part[0] == s[i] && part[1] == s[i + 1]);
        if i < a.len() {
            assert(a[i] == '$');
        } else if i == a.len() {
            assert(s[i + 1] == mark[1]);
        } else if i < a.len() + mark.len() {
            assert(s[i] == mark[i - a.len()]);
        } else {
            assert(b[i - a.len() - mark.len()] == '$');
        }
    }
}

proof fn lemma_nothing_to_put_in(a: Seq<char>, x: Seq<char>, b: Seq<char>)
    requires
        !a.contains('$'),
        !x.contains('$'),
        !b.contains('$'),
    ensures
        !(a + x + b).contains('$'),
{
    let s = a + x + b;
    if s.contains('$') {
        let k = choose|k: int| 0 <= k < s.len() && s[k] == '$';
        if k < a.len() {
            assert(a[k] == '$');
        } else if k < a.len() + x.len() {
            assert(x[k - a.len()] == '$');
        } else {
            assert(b[k - a.len() - x.len()] == '$');
        }
    }
}

/// The place of the file in a command takes the first part of the location, that of
/// the line the second, and that of the column the third. The rest of the command
/// stays, and its words are what stands between blanks.
pub proof fn law_places_are_put_in(
    a: Seq<char>,
    b: Seq<char>,
    file: Seq<char>,
    line: Seq<char>,
    column: Seq<char>,
)
    requires
        !a.contains('$'),
        !b.contains('$'),
        !file.contains('$') && !file.contains(':'),
        !line.contains('$') && !line.contains(':'),
        !column.contains('$') && !column.contains(':'),
    ensures
        ({
            let location = join(seq![file, line, column], ':');
            &&& edit_words(a + "$file"@ + b, location) == Some(split(a + file + b, ' '))
            &&& edit_words(a + "$line"@ + b, location) == Some(split(a + line + b, ' '))
            &&& edit_words(a + "$col"@ + b, location) == Some(split(a + column + b, ' '))
            &&& edit_words(Seq::empty(), location) is None
        }),
{
    reveal_strlit("$file");
    reveal_strlit("$line");
    reveal_strlit("$col");
    let parts = seq![file, line, column];
    let location = join(parts, ':');
    assert forall|k: int| 0 <= k < parts.len() implies !(#[trigger] parts[k]).contains(':') by {
        assert(k == 0 || k == 1 || k == 2);
    }
    law_location_parts_are_read_back(parts, 0);
    law_location_parts_are_read_back(parts, 1);
    law_location_parts_are_read_back(parts, 2);
    assert(parts[0] == file && parts[1] == line && parts[2] == column);
    lemma_nothing_to_put_in(a, file, b);
    lemma_nothing_to_put_in(a, line, b);
    lemma_nothing_to_put_in(a, column, b);

    lemma_put_in(a, "$file"@, b, file);
    lemma_no_mark(a + file + b, "$line"@);
    lemma_no_mark(a + file + b, "$col"@);
    law_replace_absent(a + file + b, "$line"@, line);
    law_replace_absent(a + file + b, "$col"@, column);

    lemma_other_mark(a, "$line"@, b, "$file"@);
    law_replace_absent(a + "$line"@ + b, "$file"@, file);
    lemma_put_in(a, "$line"@, b, line);
    lemma_no_mark(a + line + b, "$col"@);
    law_replace_absent(a + line + b, "$col"@, column);

    lemma_other_mark(a, "$col"@, b, "$file"@);
    lemma_other_mark(a, "$col"@, b, "$line"@);
    law_replace_absent(a + "$col"@ + b, "$file"@, file);
    law_replace_absent(a + "$col"@ + b, "$line"@, line);
    lemma_put_in(a, "$col"@, b, column);
}

/// A request for an editor names its file by `file`, and fails if it does not.
pub proof fn law_editor_is_asked_for_by_file(
    edit_command: Seq<char>,
    location: Seq<char>,
    query: Option<Seq<char>>,
)
    requires
        !location.contains('&'),
    ensures
        edit_of(edit_command, Some("file="@ + location)) == Ok::<
            Option<Seq<Seq<char>>>,
            FailureView,
        >(edit_words(edit_command, location)),
        query_value(query, "file="@) is None ==> (edit_of(edit_command, query) matches Err(failure)
            && failure.status == Status::InternalServerError && "Bad query string: "@.is_prefix_of(
            failure.msg,
        )),
        edit_of(edit_command, None) == Err::<Option<Seq<Seq<char>>>, FailureView>(
            FailureView {
                status: Status::InternalServerError,
                msg: "Bad query string: "@ + "None"@,
            },
        ),
{
    let nothing = Seq::<char>::empty();
    assert(nothing + "file="@ + location + nothing == "file="@ + location);
    law_value_is_read_back(nothing, "file="@, location, nothing);
}

/// All three places in one command are put in.
pub proof fn law_all_places_are_put_in(
    a: Seq<char>,
    b: Seq<char>,
    c: Seq<char>,
    d: Seq<char>,
    file: Seq<char>,
    line: Seq<char>,
    column: Seq<char>,
)
    requires
        !a.contains('$'),
        !b.contains('$'),
        !c.contains('$'),
        !d.contains('$'),
        !file.contains('$') && !file.contains(':'),
        !line.contains('$') && !line.contains(':'),
        !column.contains('$') && !column.contains(':'),
    ensures
        edit_words(
            a + "$file"@ + b + "$line"@ + c + "$col"@ + d,
            join(seq![file, line, column], ':'),
        ) == Some(split(a + file + b + line + c + column + d, ' ')),
{
    reveal_strlit("$file");
    reveal_strlit("$line");
    reveal_strlit("$col");
    let parts = seq![file, line, column];
    assert forall|k: int| 0 <= k < parts.len() implies !(#[trigger] parts[k]).contains(':') by {
        assert(k == 0 || k == 1 || k == 2);
    }
    law_location_parts_are_read_back(parts, 0);
    law_location_parts_are_read_back(parts, 1);
    law_location_parts_are_read_back(parts, 2);
    assert(parts[0] == file && parts[1] == line && parts[2] == column);

    let last = c + "$col"@ + d;
    let rest = b + "$line"@ + last;
    lemma_other_mark(c, "$col"@, d, "$file"@);
    lemma_other_mark(c, "$col"@, d, "$line"@);
    lemma_other_mark_in_front(b, "$line"@, last, "$file"@);
    assert(a + "$file"@ + b + "$line"@ + c + "$col"@ + d == a + "$file"@ + rest);
    lemma_put_in_front(a, "$file"@, rest, file);

    lemma_nothing_to_put_in(a, file, b);
    let front = a + file + b;
    assert(a + file + rest == front + "$line"@ + last);
    lemma_put_in_front(front, "$line"@, last, line);

    lemma_nothing_to_put_in(front, line, c);
    assert(front + line + last == (front + line + c) + "$col"@ + d);
    lemma_no_mark(d, "$col"@);
    lemma_put_in_front(front + line + c, "$col"@, d, column);
    assert((front + line + c) + column + d == a + file + b + line + c + column + d);
}

proof fn lemma_put_in_front(a: Seq<char>, mark: Seq<char>, b: Seq<char>, to: Seq<char>)
    requires
        mark.len() > 1,
        mark[0] == '$',
        !a.contains('$'),
        !holds(b, mark),
    ensures
        replace(a + mark + b, mark, to) == a + to + b,
{
    let s = a + mark + b;
    assert forall|j: int| 0 <= j < a.len() implies !occurs_at(s, mark, j) by {
        if occurs_at(s, mark, j) {
            assert(s.subrange(j, j + mark.len())[0] == '$');
            assert(a[j] == '$');
        }
    }
    law_replace_goes_on_behind(a, mark, b, to);
    law_replace_absent(b, mark, to);
}

proof fn lemma_other_mark_in_front(a: Seq<char>, mark: Seq<char>, b: Seq<char>, other: Seq<char>)
    requires
        mark.len() > 1,
        other.len() > 1,
        mark[0] == '$',
        other[0] == '$',
        mark[1] != other[1],
        forall|k: int| 1 <= k < mark.len() ==> mark[k] != '$',
        !a.contains('$'),
        !holds(b, other),
    ensures
        !holds(a + mark + b, other),
{
    let s = a + mark + b;
    if holds(s, other) {
        let i = choose|i: int| occurs_at(s, other, i);
        let part = s.subrange(i, i + other.len());
        let n = a.len() + mark.len();
        assert(part == other);
        assert(part[0] == s[i] && part[1] == s[i + 1]);
        if i < a.len() {
            assert(a[i] == '$');
        } else if i == a.len() {
            assert(s[i + 1] == mark[1]);
        } else if i < n {
            assert(s[i] == mark[i - a.len()]);
        } else {
            assert(b.subrange(i - n, i - n + other.len()) == part);
            assert(occurs_at(b, other, i - n));
        }
    }
}

/// The view of a command shows its words, or why there is none.
pub proof fn law_edit_view_shows_everything(r: Result<Option<Vec<String>>, Failure>)
    ensures
        match r {
            Ok(words) => edit_view(r) == Ok::<Option<Seq<Seq<char>>>, FailureView>(
                words.deep_view(),
            ),
            Err(failure) => edit_view(r) == Err::<Option<Seq<Seq<char>>>, FailureView>(failure@),
        },
{
}

} // verus!
