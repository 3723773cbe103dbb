//! What is shown of a file, by its name and its text.

use vstd::prelude::*;
use vstd::utf8::encode_utf8;

use crate::file_controller::file_cache::{
    bytes_read, file_shown, fresh_lines, highlights, is_rust,
    law_plain_lines_are_the_text, lines_read, plain_lines, rust_lines, text_read,
    CacheView,
};
use crate::file_controller::vfs::{
    disk_gives, law_all_lines_are_the_text, law_lines_of_short_text_fit, line_starts, text_between,
    ContentsView,
};
use crate::path::{is_name, is_place, law_extension_follows_the_last_dot, path_components};
use crate::text::{
    holds, join, law_lines_end_at_newlines, law_replace_absent, law_replace_goes_on_behind, lines,
    occurs_at, replace,
};

verus! {

// --------------------------------------------------------------------------
// Which files are highlighted
// --------------------------------------------------------------------------

/// Whether a file name ends in `.rs`, with something in front of that.
pub open spec fn ends_in_rs(name: Seq<char>) -> bool {
    name.len() > 3 && name[name.len() - 3] == '.' && name[name.len() - 2] == 'r' && name[name.len()
        - 1] == 's'
}

proof fn lemma_last_dot(name: Seq<char>) -> (i: int)
    requires
        name.contains('.'),
    ensures
        0 <= i < name.len(),
        name[i] == '.',
        !name.skip(i + 1).contains('.'),
    decreases name.len(),
{
    let n = name.len() - 1;
    if name.last() == '.' {
        assert(name.skip(n + 1) == Seq::<char>::empty());
        n
    } else {
        let front = name.drop_last();
        let k = choose|k: int| 0 <= k < name.len() && name[k] == '.';
        assert(front[k] == '.');
        let i = lemma_last_dot(front);
        assert(!name.skip(i + 1).contains('.')) by {
            let rest = name.skip(i + 1);
            if rest.contains('.') {
                let j = choose|j: int| 0 <= j < rest.len() && rest[j] == '.';
                if j < rest.len() - 1 {
                    assert(front.skip(i + 1)[j] == '.');
                }
            }
        }
        i
    }
}

proof fn lemma_no_slash_in_part(name: Seq<char>, i: int, j: int)
    requires
        !name.contains('/'),
        0 <= i <= j <= name.len(),
    ensures
        !name.subrange(i, j).contains('/'),
{
    let part = name.subrange(i, j);
    if part.contains('/') {
        let k = choose|k: int| 0 <= k < part.len() && part[k] == '/';
        assert(name[i + k] == '/');
    }
}

proof fn lemma_rust_by_name(dir: Seq<char>, name: Seq<char>)
    requires
        is_place(dir),
        is_name(name),
    ensures
        is_rust(dir + name) == ends_in_rs(name),
{
    reveal_strlit("rs");
    assert("rs"@ == seq!['r', 's']);
    let nothing = Seq::<char>::empty();
    if name.contains('.') {
        let i = lemma_last_dot(name);
        let stem = name.take(i);
        let ext = name.skip(i + 1);
        lemma_no_slash_in_part(name, 0, i);
        lemma_no_slash_in_part(name, i + 1, name.len() as int);
        assert(name.subrange(0, i) == stem);
        assert(name.subrange(i + 1, name.len() as int) == ext);
        assert(name == stem.push('.') + ext);
        law_extension_follows_the_last_dot(dir, stem, ext);
        if ends_in_rs(name) {
            let n = name.len() as int;
            if i < n - 3 {
                assert(ext[n - 3 - i - 1] == '.');
            }
            assert(i == n - 3);
            assert(ext =~= seq!['r', 's']);
        }
        if stem.len() == 0 {
            assert(name == seq!['.'] + ext);
        } else if ext == "rs"@ {
            assert(name[name.len() - 3] == '.');
            assert(name[name.len() - 2] == ext[0]);
            assert(name[name.len() - 1] == ext[1]);
        }
    } else {
        law_extension_follows_the_last_dot(dir, nothing, name);
        if ends_in_rs(name) {
            assert(name.contains(name[name.len() - 3]));
        }
    }
}

/// Only a file whose name ends in `.rs`, behind something, goes to the highlighter.
/// For any other one the lines shown afresh are those of its text, whatever the
/// highlighter does: joined by newlines they are the text, if it holds no carriage
/// return.
pub proof fn law_only_rust_files_are_highlighted<F: Fn(String, String) -> String>(
    highlighter: F,
    dir: Seq<char>,
    name: Seq<char>,
    text: Seq<char>,
    shown: Seq<Seq<char>>,
)
    requires
        is_place(dir),
        is_name(name),
        fresh_lines(highlighter, dir + name, text, shown),
    ensures
        !ends_in_rs(name) ==> shown == plain_lines(text),
        !ends_in_rs(name) && !text.contains('\r') ==> join(shown, '\n') == text,
        ends_in_rs(name) ==> exists|output: Seq<char>| #[trigger]
            highlights(highlighter, dir + name, text, output) && shown == rust_lines(text, output),
{
    lemma_rust_by_name(dir, name);
    if !text.contains('\r') {
        law_plain_lines_are_the_text(text);
    }
}

/// The same of a file that has not been shown yet: what comes out are the lines of
/// its text, or what the highlighter makes of it.
pub proof fn law_file_is_shown_by_its_name<F: Fn(String, String) -> String>(
    highlighter: F,
    before: CacheView,
    after: CacheView,
    dir: Seq<char>,
    name: Seq<char>,
    shown: Seq<Seq<char>>,
)
    requires
        is_place(dir),
        is_name(name),
        !(before.shown.contains_key(path_components(dir + name)) && before.shown[path_components(
            dir + name,
        )].len() > 0),
        file_shown(
            highlighter,
            before,
            after,
            dir + name,
            Ok::<Seq<Seq<char>>, Seq<char>>(shown),
        ),
    ensures
        after.files.contains_key(path_components(dir + name)),
        after.files[path_components(dir + name)] matches ContentsView::Text(text) && {
            &&& !ends_in_rs(name) ==> shown == plain_lines(text)
            &&& !ends_in_rs(name) && !text.contains('\r') ==> join(shown, '\n') == text
            &&& ends_in_rs(name) ==> exists|output: Seq<char>| #[trigger]
                highlights(highlighter, dir + name, text, output) && shown == rust_lines(text, output)
        },
{
    let text = after.files[path_components(dir + name)]->Text_0;
    law_only_rust_files_are_highlighted(highlighter, dir, name, text, shown);
}

// --------------------------------------------------------------------------
// Lines of a text
// --------------------------------------------------------------------------

/// The lines of a text go from newline to newline, without a carriage return in
/// front of one. Behind a newline at the end stands an empty line.
pub proof fn law_plain_lines_end_at_newlines(line: Seq<char>, rest: Seq<char>)
    requires
        !line.contains('\n'),
    ensures
        line.len() == 0 || line.last() != '\r' ==> plain_lines(line.push('\n') + rest) == seq![line]
            + if rest.len() > 0 {
            plain_lines(rest)
        } else {
            seq![Seq::<char>::empty()]
        },
        plain_lines(line.push('\r').push('\n') + rest) == seq![line] + if rest.len() > 0 {
            plain_lines(rest)
        } else {
            seq![Seq::<char>::empty()]
        },
        line.len() > 0 ==> plain_lines(line) == seq![line],
        plain_lines(Seq::<char>::empty()) == Seq::<Seq<char>>::empty(),
{
    law_lines_end_at_newlines(line, rest);
    let nothing = Seq::<char>::empty();
    let a = line.push('\n') + rest;
    let b = line.push('\r').push('\n') + rest;
    if rest.len() > 0 {
        assert(a.last() == rest.last() && b.last() == rest.last());
    } else {
        assert(rest == nothing);
        assert(a.last() == '\n' && b.last() == '\n');
    }
    if line.len() > 0 {
        assert(line.contains(line[line.len() - 1]));
    }
}

proof fn lemma_break_does_not_overlap(a: Seq<char>, b: Seq<char>)
    requires
        !holds(a, seq!['<', 'b', 'r', '>']),
    ensures
        forall|j: int|
            0 <= j < a.len() ==> !occurs_at(
                a + seq!['<', 'b', 'r', '>'] + b,
                seq!['<', 'b', 'r', '>'],
                j,
            ),
{
    let mark = seq!['<', 'b', 'r', '>'];
    let s = a + mark + b;
    assert forall|j: int| 0 <= j < a.len() implies !occurs_at(s, mark, j) by {
        if occurs_at(s, mark, j) {
            let part = s.subrange(j, j + 4);
            assert(part == mark);
            if j + 4 <= a.len() {
                assert(a.subrange(j, j + 4) == part);
                assert(occurs_at(a, mark, j));
            } else {
                let k = a.len() - j;
                assert(part[k] == s[a.len() as int]);
                assert(s[a.len() as int] == '<');
            }
        }
    }
}

/// A line of highlighted text is shown as it is, and a break in it as a newline. An
/// empty line follows exactly if the text itself ends with a newline.
pub proof fn law_highlighted_line_is_shown(text: Seq<char>, a: Seq<char>, b: Seq<char>)
    requires
        !a.contains('\n'),
        !b.contains('\n'),
        !holds(a, seq!['<', 'b', 'r', '>']),
        !holds(b, seq!['<', 'b', 'r', '>']),
    ensures
        a.len() > 0 ==> rust_lines(text, a) == seq![a] + if text.len() > 0 && text.last() == '\n' {
            seq![Seq::<char>::empty()]
        } else {
            Seq::empty()
        },
        rust_lines(text, a + seq!['<', 'b', 'r', '>'] + b) == seq![a.push('\n') + b]
            + if text.len() > 0 && text.last() == '\n' {
            seq![Seq::<char>::empty()]
        } else {
            Seq::empty()
        },
        rust_lines(text, Seq::empty()) == plain_lines(text),
{
    reveal_strlit("<br>");
    reveal_strlit("\n");
    let mark = seq!['<', 'b', 'r', '>'];
    assert("<br>"@ == mark);
    assert("\n"@ == seq!['\n']);
    let broken = a + mark + b;
    assert(!broken.contains('\n')) by {
        if broken.contains('\n') {
            let k = choose|k: int| 0 <= k < broken.len() && broken[k] == '\n';
            if k < a.len() {
                assert(a[k] == '\n');
            } else if k >= a.len() + 4 {
                assert(b[k - a.len() - 4] == '\n');
            } else {
                assert(mark[k - a.len()] == '\n');
            }
        }
    }
    law_lines_end_at_newlines(a, Seq::empty());
    law_lines_end_at_newlines(broken, Seq::empty());
    law_replace_absent(a, mark, "\n"@);
    law_replace_absent(b, mark, "\n"@);
    lemma_break_does_not_overlap(a, b);
    law_replace_goes_on_behind(a, mark, b, "\n"@);
    assert(a + "\n"@ + b == a.push('\n') + b);
    let show = |line: Seq<char>| replace(line, "<br>"@, "\n"@);
    assert(seq![a].map_values(show) =~= seq![show(a)]);
    assert(seq![broken].map_values(show) =~= seq![show(broken)]);
}

/// The lines that a highlighter gives are shown one after the other.
pub proof fn law_highlighted_lines_follow(text: Seq<char>, line: Seq<char>, rest: Seq<char>)
    requires
        !line.contains('\n'),
        line.len() > 0,
        line.last() != '\r',
        rest.len() > 0,
    ensures
        rust_lines(text, line.push('\n') + rest) == rust_lines(Seq::empty(), line) + rust_lines(
            text,
            rest,
        ),
        rust_lines(text, line.push('\n')) == rust_lines(text, line),
{
    law_lines_end_at_newlines(line, rest);
    law_lines_end_at_newlines(line, Seq::empty());
    assert(line.push('\n') + Seq::<char>::empty() == line.push('\n'));
    lemma_text_has_lines(rest);
    let show = |l: Seq<char>| replace(l, "<br>"@, "\n"@);
    assert((seq![line] + lines(rest)).map_values(show) =~= seq![line].map_values(show) + lines(
        rest,
    ).map_values(show));
    assert(seq![line] + Seq::<Seq<char>>::empty() == seq![line]);
}

proof fn lemma_text_has_lines(text: Seq<char>)
    requires
        text.len() > 0,
    ensures
        lines(text).len() > 0,
{
    if text.contains('\n') {
        let k = choose|k: int| 0 <= k < text.len() && text[k] == '\n';
        lemma_line_before(text, k);
    } else {
        law_lines_end_at_newlines(text, Seq::empty());
    }
}

proof fn lemma_line_before(text: Seq<char>, k: int)
    requires
        0 <= k < text.len(),
        text[k] == '\n',
    ensures
        lines(text).len() > 0,
    decreases k,
{
    let line = text.take(k);
    let rest = text.skip(k + 1);
    if line.contains('\n') {
        let j = choose|j: int| 0 <= j < line.len() && line[j] == '\n';
        lemma_line_before(text, j);
    } else {
        assert(text == line.push('\n') + rest);
        law_lines_end_at_newlines(line, rest);
        if line.len() > 0 && line.last() == '\r' {
            let l = line.drop_last();
            assert(!l.contains('\n')) by {
                if l.contains('\n') {
                    let j = choose|j: int| 0 <= j < l.len() && l[j] == '\n';
                    assert(line[j] == '\n');
                }
            }
            law_lines_end_at_newlines(l, rest);
            assert(l.push('\r') == line);
        }
    }
}

// --------------------------------------------------------------------------
// Reading files
// --------------------------------------------------------------------------

/// Whether a cache has got hold of a file: it held the file and has not changed, or
/// the disk has given what it holds now, and nothing else is new.
pub open spec fn got_file(before: CacheView, after: CacheView, path: Seq<char>) -> bool {
    let file = path_components(path);
    &&& after.files.contains_key(file)
    &&& before.files.contains_key(file) ==> after.files == before.files
    &&& !before.files.contains_key(file) ==> disk_gives(path, Some(after.files[file])) && after.files
        == before.files.insert(file, after.files[file])
}

/// A file that is read as text is its text, an error if it is no text, or an error
/// if the disk does not give it.
pub proof fn law_text_of_a_file(
    before: CacheView,
    after: CacheView,
    path: Seq<char>,
    r: Result<Seq<char>, Seq<char>>,
)
    requires
        text_read(before, after, path, r),
    ensures
        after.shown == before.shown,
        match r {
            Ok(text) => got_file(before, after, path) && after.files[path_components(path)]
                == ContentsView::Text(text),
            Err(e) => {
                ||| got_file(before, after, path) && after.files[path_components(path)] is Binary && e
                    == "file is not the correct kind for the operation (e.g., text op on binary file)"@
                ||| !before.files.contains_key(path_components(path)) && disk_gives(path, None)
                    && after == before && e == "io::Error reading or writing path"@
            },
        },
        before.files.contains_key(path_components(path)) && before.files[path_components(
            path,
        )] is Text ==> r is Ok,
{
}

/// The bytes of a file are those of its text in UTF-8, or those of a file that is
/// no text. There is an error only if the disk does not give the file.
pub proof fn law_bytes_of_a_file(
    before: CacheView,
    after: CacheView,
    path: Seq<char>,
    r: Result<Seq<u8>, Seq<char>>,
)
    requires
        bytes_read(before, after, path, r),
    ensures
        after.shown == before.shown,
        match r {
            Ok(bytes) => got_file(before, after, path) && match after.files[path_components(path)] {
                ContentsView::Text(text) => bytes == encode_utf8(text),
                ContentsView::Binary(held) => bytes == held,
            },
            Err(e) => !before.files.contains_key(path_components(path)) && disk_gives(path, None)
                && after == before && e == "io::Error reading or writing path"@,
        },
{
}

/// Lines of a file are the part of its text between two rows. Asking for all rows of
/// a text that is not too long gives the whole text.
pub proof fn law_lines_of_a_file(
    before: CacheView,
    after: CacheView,
    path: Seq<char>,
    start: nat,
    end: nat,
    r: Result<Seq<char>, Seq<char>>,
)
    requires
        lines_read(before, after, path, start, end, r),
    ensures
        after.shown == before.shown,
        match r {
            Ok(part) => got_file(before, after, path) && (after.files[path_components(
                path,
            )] matches ContentsView::Text(text) && text_between(text, start, end) == Some(part)),
            Err(e) => {
                ||| got_file(before, after, path) && after.files[path_components(path)] is Binary && e
                    == "file is not the correct kind for the operation (e.g., text op on binary file)"@
                ||| got_file(before, after, path) && after.files[path_components(path)] is Text && e
                    == "client specified location not existing within a file"@
                ||| !before.files.contains_key(path_components(path)) && disk_gives(path, None)
                    && after == before && e == "io::Error reading or writing path"@
            },
        },
        after.files.contains_key(path_components(path)) ==> (after.files[path_components(
            path,
        )] matches ContentsView::Text(text) ==> {
            &&& encode_utf8(text).len() <= u32::MAX && text_between(text, start, end) is Some ==> r
                is Ok
            &&& encode_utf8(text).len() <= u32::MAX && start == 0 && end >= line_starts(text).len()
                ==> r == Ok::<Seq<char>, Seq<char>>(text)
        }),
{
    if after.files.contains_key(path_components(path)) {
        if let ContentsView::Text(text) = after.files[path_components(path)] {
            if encode_utf8(text).len() <= u32::MAX {
                law_lines_of_short_text_fit(text, start, end);
            }
            if start == 0 && end >= line_starts(text).len() {
                law_all_lines_are_the_text(text, end);
            }
        }
    }
}

/// What is shown of a file comes from its text; there is an error if it is no text,
/// or if the disk does not give it.
pub proof fn law_shown_file_is_text<F: Fn(String, String) -> String>(
    highlighter: F,
    before: CacheView,
    after: CacheView,
    path: Seq<char>,
    r: Result<Seq<Seq<char>>, Seq<char>>,
)
    requires
        file_shown(highlighter, before, after, path, r),
    ensures
        match r {
            Ok(lines) => got_file(before, after, path) && after.files[path_components(path)] is Text
                && after.shown.contains_key(path_components(path)) && after.shown[path_components(
                path,
            )] == lines,
            Err(e) => {
                ||| got_file(before, after, path) && after.files[path_components(path)] is Binary && e
                    == "file is not the correct kind for the operation (e.g., text op on binary file)"@
                ||| !before.files.contains_key(path_components(path)) && disk_gives(path, None)
                    && after == before && e == "io::Error reading or writing path"@
            },
        },
        before.files.contains_key(path_components(path)) && before.files[path_components(
            path,
        )] is Text ==> r is Ok,
        r matches Ok(lines) ==> (before.shown.contains_key(path_components(path))
            && before.shown[path_components(path)].len() > 0 ==> lines
            == before.shown[path_components(path)]),
{
}

} // verus!
