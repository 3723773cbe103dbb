//! Events, as they go to a client that follows a build.

use vstd::prelude::*;

use crate::text::joined;
use crate::text::{law_split_at_separator, split};

verus! {

/// The hexadecimal digit of a number below sixteen.
pub open spec fn hex_digit(n: int) -> char {
    if n < 10 {
        ('0' as int + n) as char
    } else {
        ('a' as int + n - 10) as char
    }
}

/// A character inside of a JSON string.
pub open spec fn escaped(c: char) -> Seq<char> {
    if c == '"' || c == '\\' {
        seq!['\\', c]
    } else if c == '\n' {
        seq!['\\', 'n']
    } else if c == '\r' {
        seq!['\\', 'r']
    } else if c == '\t' {
        seq!['\\', 't']
    } else if c as int == 8 {
        seq!['\\', 'b']
    } else if c as int == 12 {
        seq!['\\', 'f']
    } else if (c as int) < 32 {
        seq!['\\', 'u', '0', '0', hex_digit(c as int / 16), hex_digit(c as int % 16)]
    } else {
        seq![c]
    }
}

/// A text inside of a JSON string.
pub open spec fn escaped_text(s: Seq<char>) -> Seq<char>
    decreases s.len(),
{
    if s.len() == 0 {
        Seq::empty()
    } else {
        escaped_text(s.drop_last()) + escaped(s.last())
    }
}

/// A text as a JSON string.
pub open spec fn json_string(s: Seq<char>) -> Seq<char> {
    seq!['"'] + escaped_text(s) + seq!['"']
}

/// `serde_json::to_string` on a text: the text in quotes, with quotes, backslashes
/// and control characters escaped.
#[verifier::external_body]
pub(crate) fn to_json(s: &str) -> (r: String)
    ensures
        r@ == json_string(s@),
{
    serde_json::to_string(s).unwrap()
}

/// An event with a name and data.
pub open spec fn event(name: Seq<char>, data: Seq<char>) -> Seq<char> {
    "event: "@ + name + "\ndata: "@ + data + "\n\n"@
}

/// An event with a name and data.
pub fn event_text(name: &str, data: &str) -> (r: String)
    ensures
        r@ == event(name@, data@),
{
    let start = joined("event: ", name);
    let middle = joined(start.as_str(), "\ndata: ");
    let end = joined(middle.as_str(), data);
    joined(end.as_str(), "\n\n")
}

/// The event that ends the updates of a build.
pub open spec fn close_event() -> Seq<char> {
    event("close"@, "{}"@)
}

/// The event that ends the updates of a build.
pub fn close_event_text() -> (r: String)
    ensures
        r@ == close_event(),
{
    event_text("close", "{}")
}

/// Whether a text fits in one line.
pub open spec fn is_one_line(s: Seq<char>) -> bool {
    !s.contains('\n') && !s.contains('\r')
}

proof fn lemma_escaped_char_is_one_line(c: char)
    ensures
        forall|i: int|
            0 <= i < escaped(c).len() ==> (#[trigger] escaped(c)[i]) != '\n' && escaped(c)[i] != '\r',
{
    assert((c as int) < 32 ==> 0 <= c as int / 16 < 2 && 0 <= c as int % 16 < 16);
}

proof fn lemma_escaped_is_one_line(s: Seq<char>)
    ensures
        is_one_line(escaped_text(s)),
    decreases s.len(),
{
    if s.len() > 0 {
        lemma_escaped_is_one_line(s.drop_last());
        let front = escaped_text(s.drop_last());
        let back = escaped(s.last());
        lemma_escaped_char_is_one_line(s.last());
        let all = front + back;
        assert forall|i: int| 0 <= i < all.len() implies all[i] != '\n' && all[i] != '\r' by {
            if i < front.len() {
                assert(all[i] == front[i]);
                assert(front.contains(front[i]));
            } else {
                assert(all[i] == back[i - front.len()]);
            }
        }
    }
}

/// Whatever a message holds, its JSON string is one line, so that an event carries
/// it in a single line of data.
pub proof fn law_json_string_is_one_line(s: Seq<char>)
    ensures
        is_one_line(json_string(s)),
{
    lemma_escaped_is_one_line(s);
    let body = escaped_text(s);
    let all = json_string(s);
    assert forall|i: int| 0 <= i < all.len() implies all[i] != '\n' && all[i] != '\r' by {
        if 0 < i && i <= body.len() {
            assert(all[i] == body[i - 1]);
            assert(body.contains(body[i - 1]));
        }
    }
}

/// An event names itself in its first line and carries its data in the second; an
/// empty line ends it.
pub proof fn law_event_has_two_lines(name: Seq<char>, data: Seq<char>)
    requires
        is_one_line(name),
        is_one_line(data),
    ensures
        split(event(name, data), '\n') == seq![
            "event: "@ + name,
            "data: "@ + data,
            Seq::<char>::empty(),
            Seq::<char>::empty(),
        ],
        close_event() == event("close"@, "{}"@),
{
    reveal_strlit("event: ");
    reveal_strlit("\ndata: ");
    reveal_strlit("data: ");
    reveal_strlit("\n\n");
    let first = "event: "@ + name;
    let second = "data: "@ + data;
    let nothing = Seq::<char>::empty();
    assert(!first.contains('\n')) by {
        if first.contains('\n') {
            let k = choose|k: int| 0 <= k < first.len() && first[k] == '\n';
            if k >= 7 {
                assert(name[k - 7] == '\n');
            }
        }
    }
    assert(!second.contains('\n')) by {
        if second.contains('\n') {
            let k = choose|k: int| 0 <= k < second.len() && second[k] == '\n';
            if k >= 6 {
                assert(data[k - 6] == '\n');
            }
        }
    }
    let tail = nothing.push('\n') + nothing;
    let rest = second.push('\n') + tail;
    assert("\ndata: "@ == seq!['\n'] + "data: "@);
    assert("\n\n"@ == seq!['\n', '\n']);
    assert(event(name, data) == first.push('\n') + rest);
    law_split_at_separator(first, '\n', rest);
    law_split_at_separator(second, '\n', tail);
    law_split_at_separator(nothing, '\n', nothing);
    law_split_at_separator(nothing, '\n', first);
    law_split_at_separator(nothing, '\n', second);
    assert(split(event(name, data), '\n') =~= seq![first, second, nothing, nothing]);
}

/// A text is escaped character by character, and only quotes, backslashes and
/// control characters are.
pub proof fn law_json_string_goes_by_character(a: Seq<char>, b: Seq<char>, c: char)
    ensures
        escaped_text(a + b) == escaped_text(a) + escaped_text(b),
        c as int >= 32 && c != '"' && c != '\\' ==> escaped_text(seq![c]) == seq![c],
        c as int == 10 ==> escaped_text(seq![c]) == seq!['\\', 'n'],
        c == '"' || c == '\\' ==> escaped_text(seq![c]) == seq!['\\', c],
        json_string(a) == seq!['"'] + escaped_text(a) + seq!['"'],
        escaped_text(Seq::<char>::empty()) == Seq::<char>::empty(),
    decreases b.len(),
{
    assert(seq![c].drop_last() == Seq::<char>::empty());
    assert(escaped_text(Seq::<char>::empty()) == Seq::<char>::empty());
    assert(escaped_text(seq![c]) == escaped(c));
    if b.len() == 0 {
        assert(a + b == a);
    } else {
        law_json_string_goes_by_character(a, b.drop_last(), c);
        assert((a + b).drop_last() == a + b.drop_last());
    }
}

/// The value of a digit in base sixteen.
pub open spec fn hex_value(d: char) -> int {
    if '0' <= d <= '9' {
        d as int - '0' as int
    } else {
        d as int - 'a' as int + 10
    }
}

/// Five control characters are written by a letter, and any other as its number in
/// four digits of base sixteen, none of them a capital.
pub proof fn law_control_characters_are_written_out(c: char)
    requires
        (c as int) < 32,
    ensures
        c as int == 8 ==> escaped(c) == seq!['\\', 'b'],
        c as int == 9 ==> escaped(c) == seq!['\\', 't'],
        c as int == 10 ==> escaped(c) == seq!['\\', 'n'],
        c as int == 12 ==> escaped(c) == seq!['\\', 'f'],
        c as int == 13 ==> escaped(c) == seq!['\\', 'r'],
        c as int != 8 && c as int != 9 && c as int != 10 && c as int != 12 && c as int != 13 ==> {
            &&& escaped(c).len() == 6
            &&& escaped(c).take(4) == seq!['\\', 'u', '0', '0']
            &&& forall|i: int|
                4 <= i < 6 ==> '0' <= #[trigger] escaped(c)[i] <= '9' || 'a' <= escaped(c)[i] <= 'f'
            &&& hex_value(escaped(c)[4]) * 16 + hex_value(escaped(c)[5]) == c as int
        },
{
    let n = c as int;
    assert(0 <= n / 16 < 2 && 0 <= n % 16 < 16);
}

} // verus!
