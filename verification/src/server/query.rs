//! Reading the values that a request carries.

use vstd::prelude::*;

use crate::text::{chars_of, find_chars, split_text, text_of};
use crate::text::{
    find, find_from, holds, join, law_join_then_split, lemma_find_from, lemma_find_is, occurs_at,
    split,
};

verus! {

/// A text up to the first ampersand.
pub open spec fn up_to_ampersand(s: Seq<char>) -> Seq<char> {
    match find(s, seq!['&']) {
        Some(i) => s.take(i as int),
        None => s,
    }
}

/// The value of a key in a query: what follows the first place where the key
/// stands, up to the next ampersand. The key holds the equals sign at its end.
pub open spec fn query_value(query: Option<Seq<char>>, key: Seq<char>) -> Option<Seq<char>> {
    match query {
        None => None,
        Some(q) => match find(q, key) {
            None => None,
            Some(i) => Some(up_to_ampersand(q.skip((i + key.len()) as int))),
        },
    }
}

/// Reads the value of a key in a query. The key should include its equals sign.
pub fn parse_query_value(query: &Option<String>, key: &str) -> (r: Option<String>)
    ensures
        r.deep_view() == query_value(query.deep_view(), key@),
{
    match query {
        Some(q) => {
            let chars = chars_of(q.as_str());
            let key_chars = chars_of(key);
            let start: usize = match find_chars(&chars, &key_chars, 0) {
                Some(i) => i + key_chars.len(),
                None => {
                    return None;
                },
            };
            let mut ampersand: Vec<char> = Vec::new();
            ampersand.push('&');
            assert(ampersand@ == seq!['&']);
            let ghost rest = q@.skip(start as int);
            proof {
                lemma_find_in_rest(q@, seq!['&'], start as nat);
            }
            let end: usize = match find_chars(&chars, &ampersand, start) {
                Some(i) => {
                    assert(rest.take(i - start) == q@.subrange(start as int, i as int));
                    i
                },
                None => {
                    assert(rest == q@.subrange(start as int, chars.len() as int));
                    chars.len()
                },
            };
            Some(text_of(&chars, start, end))
        },
        None => None,
    }
}

/// Searching from a position on is searching the rest of the text.
pub proof fn lemma_find_in_rest(s: Seq<char>, key: Seq<char>, start: nat)
    requires
        start <= s.len(),
    ensures
        match find_from(s, key, start) {
            Some(i) => i >= start && find(s.skip(start as int), key) == Some((i - start) as nat),
            None => find(s.skip(start as int), key) is None,
        },
{
    let rest = s.skip(start as int);
    lemma_find_from(s, key, start);
    lemma_find_from(rest, key, 0);
    assert forall|j: int| 0 <= j implies occurs_at(rest, key, j) == #[trigger] occurs_at(s, key, start + j) by {
        if j + key.len() <= rest.len() {
            assert(rest.subrange(j, j + key.len()) == s.subrange(start + j, start + j + key.len()));
        }
    }
    match find_from(s, key, start) {
        Some(i) => {
            let k = (i - start) as nat;
            assert(occurs_at(rest, key, k as int) == occurs_at(s, key, (start + k) as int));
            assert forall|j: int| 0 <= j < k implies !occurs_at(rest, key, j) by {
                assert(occurs_at(rest, key, j) == occurs_at(s, key, start + j));
            }
            lemma_find_is(rest, key, 0, k);
        },
        None => {
            if let Some(k) = find(rest, key) {
                assert(occurs_at(rest, key, k as int) == occurs_at(s, key, (start + k) as int));
            }
        },
    }
}

/// A value never holds an ampersand.
pub proof fn law_value_ends_at_ampersand(query: Option<Seq<char>>, key: Seq<char>)
    ensures
        query_value(query, key) matches Some(value) ==> !value.contains('&'),
{
    if let Some(value) = query_value(query, key) {
        let q = query->Some_0;
        let rest = q.skip((find(q, key)->Some_0 + key.len()) as int);
        lemma_find_from(rest, seq!['&'], 0);
        if value.contains('&') {
            let i = choose|i: int| 0 <= i < value.len() && value[i] == '&';
            assert(rest[i] == '&');
            assert(rest.subrange(i, i + 1) == seq!['&']);
            assert(occurs_at(rest, seq!['&'], i));
        }
    }
}

/// A value is read back from the query that it was written into: behind its key,
/// which must not stand anywhere before, and in front of the end or of an
/// ampersand. The value itself holds no ampersand.
pub proof fn law_value_is_read_back(
    before: Seq<char>,
    key: Seq<char>,
    value: Seq<char>,
    after: Seq<char>,
)
    requires
        !value.contains('&'),
        after.len() > 0 ==> after[0] == '&',
        forall|i: int| 0 <= i < before.len() ==> !occurs_at(before + key + value + after, key, i),
    ensures
        query_value(Some(before + key + value + after), key) == Some(value),
{
    let q = before + key + value + after;
    assert(q.subrange(before.len() as int, (before.len() + key.len()) as int) == key);
    lemma_find_is(q, key, 0, before.len());
    let rest = q.skip((before.len() + key.len()) as int);
    assert(rest == value + after);
    assert forall|j: int| 0 <= j < value.len() implies !occurs_at(rest, seq!['&'], j) by {
        if occurs_at(rest, seq!['&'], j) {
            assert(rest.subrange(j, j + 1)[0] == '&');
            assert(value[j] == '&');
        }
    }
    if after.len() > 0 {
        assert(rest.subrange(value.len() as int, (value.len() + 1) as int) == seq!['&']);
        lemma_find_is(rest, seq!['&'], 0, value.len());
        assert(rest.take(value.len() as int) == value);
    } else {
        lemma_find_from(rest, seq!['&'], 0);
        assert(rest == value);
        if let Some(k) = find(rest, seq!['&']) {
            assert(!occurs_at(rest, seq!['&'], k as int));
        }
    }
}

/// The parts of a location: what stands between its colons, each missing part
/// being empty.
pub open spec fn location_part(input: Seq<char>, i: int) -> Seq<char> {
    if i < split(input, ':').len() {
        split(input, ':')[i]
    } else {
        Seq::empty()
    }
}

/// The part at `i`, or an empty text.
fn part_or_empty(parts: &Vec<String>, i: usize) -> (r: String)
    ensures
        r@ == if i < parts.len() {
            parts.deep_view()[i as int]
        } else {
            Seq::empty()
        },
{
    if i < parts.len() {
        parts[i].clone()
    } else {
        String::new()
    }
}

/// Splits a location such as `file:line:column` on colons. There are always five
/// parts; those that the location lacks are empty, and those behind the fifth
/// are dropped.
pub fn parse_location_string(input: &str) -> (r: [String; 5])
    ensures
        forall|i: int| 0 <= i < 5 ==> (#[trigger] r@[i])@ == location_part(input@, i),
{
    let parts = split_text(input, ':');
    assert(parts.len() == parts.deep_view().len());
    [
        part_or_empty(&parts, 0),
        part_or_empty(&parts, 1),
        part_or_empty(&parts, 2),
        part_or_empty(&parts, 3),
        part_or_empty(&parts, 4),
    ]
}

/// There is no value without a query, nor for a key that stands nowhere in it.
pub proof fn law_missing_key_has_no_value(query: Option<Seq<char>>, key: Seq<char>)
    ensures
        query is None ==> query_value(query, key) is None,
        query matches Some(q) ==> (query_value(query, key) is None <==> !holds(q, key)),
{
    if let Some(q) = query {
        lemma_find_from(q, key, 0);
        if let Some(i) = find(q, key) {
            assert(occurs_at(q, key, i as int));
        }
    }
}

/// The parts of a location are read back in their order; parts that it lacks are
/// empty.
pub proof fn law_location_parts_are_read_back(parts: Seq<Seq<char>>, i: int)
    requires
        parts.len() > 0,
        forall|k: int| 0 <= k < parts.len() ==> !(#[trigger] parts[k]).contains(':'),
        0 <= i,
    ensures
        i < parts.len() ==> location_part(join(parts, ':'), i) == parts[i],
        i >= parts.len() ==> location_part(join(parts, ':'), i) == Seq::<char>::empty(),
{
    law_join_then_split(parts, ':');
}

} // verus!
