//! Operations on text, stated over the sequence of its characters.

use vstd::prelude::*;

verus! {

/// `String::push` appends one character to the end of the text.
pub assume_specification[ String::push ](s: &mut String, ch: char)
    ensures
        final(s)@ == old(s)@.push(ch),
;

/// The characters of a text.
pub fn chars_of(s: &str) -> (r: Vec<char>)
    ensures
        r@ == s@,
{
    let mut chars: Vec<char> = Vec::new();
    for c in it: s.chars()
        invariant
            it.seq() == s@,
            chars@ == s@.take(it.index() as int),
    {
        chars.push(c);
    }
    chars
}

/// The text made of the characters `from..to` of `chars`.
pub fn text_of(chars: &Vec<char>, from: usize, to: usize) -> (r: String)
    requires
        from <= to <= chars.len(),
    ensures
        r@ == chars@.subrange(from as int, to as int),
{
    let mut s = String::new();
    let mut i: usize = from;
    while i < to
        invariant
            from <= i <= to <= chars.len(),
            s@ == chars@.subrange(from as int, i as int),
        decreases to - i,
    {
        s.push(chars[i]);
        i += 1;
        assert(chars@.subrange(from as int, i as int).drop_last() == chars@.subrange(from as int, i - 1));
    }
    s
}

/// Whether two texts are the same.
pub fn same_text(a: &str, b: &str) -> (r: bool)
    ensures
        r == (a@ == b@),
{
    a.to_owned() == b.to_owned()
}

/// The bytes of a text.
pub fn text_bytes(s: &str) -> (r: Vec<u8>)
    ensures
        r@ == vstd::utf8::encode_utf8(s@),
{
    let bytes = s.as_bytes();
    let mut result: Vec<u8> = Vec::new();
    let mut i: usize = 0;
    while i < bytes.len()
        invariant
            i <= bytes.len(),
            bytes@ == vstd::utf8::encode_utf8(s@),
            result@ == bytes@.take(i as int),
        decreases bytes.len() - i,
    {
        result.push(bytes[i]);
        i += 1;
    }
    assert(bytes@.take(i as int) == bytes@);
    result
}

/// The concatenation of two texts.
pub fn joined(a: &str, b: &str) -> (r: String)
    ensures
        r@ == a@ + b@,
{
    let mut s = a.to_owned();
    s.append(b);
    s
}

// --------------------------------------------------------------------------
// Splitting
// --------------------------------------------------------------------------

/// The pieces between the separators of `s`: each separator opens a new piece,
/// every other character extends the last one.
pub open spec fn split(s: Seq<char>, sep: char) -> Seq<Seq<char>>
    decreases s.len(),
{
    if s.len() == 0 {
        seq![Seq::<char>::empty()]
    } else {
        let before = split(s.drop_last(), sep);
        if s.last() == sep {
            before.push(Seq::<char>::empty())
        } else {
            before.drop_last().push(before.last().push(s.last()))
        }
    }
}

/// The pieces put together again, with the separator between them.
pub open spec fn join(pieces: Seq<Seq<char>>, sep: char) -> Seq<char>
    decreases pieces.len(),
{
    if pieces.len() == 0 {
        Seq::empty()
    } else if pieces.len() == 1 {
        pieces[0]
    } else {
        join(pieces.drop_last(), sep).push(sep) + pieces.last()
    }
}

pub proof fn lemma_split_not_empty(s: Seq<char>, sep: char)
    ensures
        split(s, sep).len() >= 1,
    decreases s.len(),
{
    if s.len() > 0 {
        lemma_split_not_empty(s.drop_last(), sep);
    }
}

/// Splitting loses nothing: no piece holds the separator, and the pieces joined
/// by it are the text again.
pub proof fn law_split_then_join(s: Seq<char>, sep: char)
    ensures
        join(split(s, sep), sep) == s,
        forall|i: int| 0 <= i < split(s, sep).len() ==> !(#[trigger] split(s, sep)[i]).contains(sep),
    decreases s.len(),
{
    lemma_split_not_empty(s, sep);
    if s.len() > 0 {
        let before = split(s.drop_last(), sep);
        law_split_then_join(s.drop_last(), sep);
        lemma_split_not_empty(s.drop_last(), sep);
        let pieces = split(s, sep);
        if s.last() == sep {
            assert(pieces.drop_last() == before);
            assert(join(pieces, sep) == join(before, sep).push(sep));
        } else {
            assert(pieces.drop_last() == before.drop_last());
            assert forall|i: int| 0 <= i < pieces.len() implies !(#[trigger] pieces[i]).contains(sep) by {
                if i < before.len() - 1 {
                    assert(pieces[i] == before[i]);
                } else {
                    assert(!before[before.len() - 1].contains(sep));
                    if pieces[i].contains(sep) {
                        let k = choose|k: int| 0 <= k < pieces[i].len() && pieces[i][k] == sep;
                        assert(before.last()[k] == sep);
                    }
                }
            }
            if before.len() == 1 {
                assert(join(pieces, sep) == pieces[0]);
            } else {
                assert(join(pieces, sep) == join(before.drop_last(), sep).push(sep) + pieces.last());
            }
        }
        assert(s.drop_last().push(s.last()) == s);
    }
}

/// The pieces of a text hold no character that the text does not hold.
pub proof fn lemma_split_adds_nothing(s: Seq<char>, sep: char, c: char)
    requires
        !s.contains(c),
    ensures
        forall|i: int| 0 <= i < split(s, sep).len() ==> !(#[trigger] split(s, sep)[i]).contains(c),
    decreases s.len(),
{
    if s.len() > 0 {
        let t = s.drop_last();
        assert(!t.contains(c)) by {
            if t.contains(c) {
                let k = choose|k: int| 0 <= k < t.len() && t[k] == c;
                assert(s[k] == c);
            }
        }
        lemma_split_adds_nothing(t, sep, c);
        lemma_split_not_empty(t, sep);
        let before = split(t, sep);
        let pieces = split(s, sep);
        assert(s[s.len() - 1] != c);
        assert forall|i: int| 0 <= i < pieces.len() implies !(#[trigger] pieces[i]).contains(c) by {
            if i < before.len() {
                assert(!before[i].contains(c));
                if pieces[i].contains(c) {
                    let k = choose|k: int| 0 <= k < pieces[i].len() && pieces[i][k] == c;
                    assert(before[i][k] == c);
                }
            }
        }
    }
}

/// Splits a text at each separator.
pub fn split_text(s: &str, sep: char) -> (r: Vec<String>)
    ensures
        r.deep_view() == split(s@, sep),
        r.len() >= 1,
{
    let mut done: Vec<String> = Vec::new();
    let mut piece = String::new();
    for c in it: s.chars()
        invariant
            it.seq() == s@,
            split(s@.take(it.index() as int), sep) == done.deep_view().push(piece@),
    {
        proof {
            let k = it.index() as int;
            assert(s@.take(k + 1).drop_last() == s@.take(k));
            assert(done.deep_view().push(piece@).drop_last() == done.deep_view());
        }
        if c == sep {
            let ghost before = done.deep_view();
            done.push(piece);
            piece = String::new();
            assert(done.deep_view() == before.push(done@.last()@));
        } else {
            piece.push(c);
        }
    }
    let ghost before = done.deep_view();
    done.push(piece);
    assert(done.deep_view() == before.push(done@.last()@));
    assert(s@.take(s@.len() as int) == s@);
    done
}

// --------------------------------------------------------------------------
// Lines
// --------------------------------------------------------------------------

/// A terminated line without the carriage return that may precede its newline.
pub open spec fn without_return(line: Seq<char>) -> Seq<char> {
    if line.len() > 0 && line.last() == '\r' {
        line.drop_last()
    } else {
        line
    }
}

/// The lines of a text. A line ends with a newline, or with a carriage return
/// and a newline; the ending of the last line is optional.
pub open spec fn lines(s: Seq<char>) -> Seq<Seq<char>> {
    let pieces = split(s, '\n');
    let ended = pieces.drop_last().map_values(|line: Seq<char>| without_return(line));
    if pieces.last().len() > 0 {
        ended.push(pieces.last())
    } else {
        ended
    }
}

/// Splits a text into its lines.
pub fn lines_of(s: &str) -> (r: Vec<String>)
    ensures
        r.deep_view() == lines(s@),
{
    let pieces = split_text(s, '\n');
    let ghost all = split(s@, '\n');
    let last: usize = pieces.len() - 1;
    let mut result: Vec<String> = Vec::new();
    let mut i: usize = 0;
    while i < last
        invariant
            i <= last == pieces.len() - 1,
            pieces.deep_view() == all,
            result.deep_view() == all.take(i as int).map_values(|line: Seq<char>| without_return(line)),
        decreases last - i,
    {
        let chars = chars_of(pieces[i].as_str());
        assert(chars@ == all[i as int]);
        let n: usize = chars.len();
        let end: usize = if n > 0 && chars[n - 1] == '\r' { n - 1 } else { n };
        let line = text_of(&chars, 0, end);
        assert(line@ == without_return(all[i as int]));
        let ghost before = result.deep_view();
        result.push(line);
        assert(result.deep_view() == before.push(line@));
        assert(all.take(i + 1) == all.take(i as int).push(all[i as int]));
        i += 1;
        assert(result.deep_view() == all.take(i as int).map_values(|line: Seq<char>| without_return(line)));
    }
    assert(all.take(last as int) == all.drop_last());
    assert(pieces[last as int]@ == all.last());
    let chars = chars_of(pieces[last].as_str());
    if chars.len() > 0 {
        let line = pieces[last].clone();
        let ghost before = result.deep_view();
        result.push(line);
        assert(result.deep_view() == before.push(line@));
    }
    result
}

/// Whether a text ends with a newline.
pub open spec fn ends_line(s: Seq<char>) -> bool {
    s.len() > 0 && s.last() == '\n'
}

/// A text that ends with a newline has the lines of the text without it, but
/// for the carriage return that a newline takes along.
pub proof fn law_final_newline_adds_no_line(s: Seq<char>)
    requires
        s.len() > 0,
        s.last() != '\n',
        s.last() != '\r',
    ensures
        lines(s.push('\n')) == lines(s),
{
    let t = s.push('\n');
    assert(t.drop_last() == s);
    let before = split(s.drop_last(), '\n');
    lemma_split_not_empty(s.drop_last(), '\n');
    let pieces = split(s, '\n');
    assert(pieces.last() == before.last().push(s.last()));
    assert(split(t, '\n').drop_last() == pieces);
    let strip = |line: Seq<char>| without_return(line);
    assert(pieces.map_values(strip) == pieces.drop_last().map_values(strip).push(pieces.last()));
}

/// Whether a text ends with a newline.
pub fn ends_with_newline(s: &str) -> (r: bool)
    ensures
        r == ends_line(s@),
{
    let chars = chars_of(s);
    let n: usize = chars.len();
    n > 0 && chars[n - 1] == '\n'
}

// --------------------------------------------------------------------------
// Searching
// --------------------------------------------------------------------------

/// Whether `key` stands in `s` at position `i`.
pub open spec fn occurs_at(s: Seq<char>, key: Seq<char>, i: int) -> bool {
    0 <= i && i + key.len() <= s.len() && s.subrange(i, i + key.len()) == key
}

/// The first position from `i` on at which `key` stands in `s`.
pub open spec fn find_from(s: Seq<char>, key: Seq<char>, i: nat) -> Option<nat>
    decreases s.len() + 1 - i,
{
    if i + key.len() > s.len() {
        None
    } else if occurs_at(s, key, i as int) {
        Some(i)
    } else {
        find_from(s, key, i + 1)
    }
}

/// The first position at which `key` stands in `s`.
pub open spec fn find(s: Seq<char>, key: Seq<char>) -> Option<nat> {
    find_from(s, key, 0)
}

pub proof fn lemma_find_from(s: Seq<char>, key: Seq<char>, i: nat)
    ensures
        find_from(s, key, i) matches Some(k) ==> k >= i && occurs_at(s, key, k as int),
        find_from(s, key, i) matches Some(k) ==> forall|j: int| i <= j < k ==> !occurs_at(s, key, j),
        find_from(s, key, i) is None ==> forall|j: int| i <= j ==> !occurs_at(s, key, j),
    decreases s.len() + 1 - i,
{
    if i + key.len() > s.len() {
    } else if occurs_at(s, key, i as int) {
    } else {
        lemma_find_from(s, key, i + 1);
    }
}

pub proof fn lemma_find_is(s: Seq<char>, key: Seq<char>, i: nat, k: nat)
    requires
        i <= k,
        occurs_at(s, key, k as int),
        forall|j: int| i <= j < k ==> !occurs_at(s, key, j),
    ensures
        find_from(s, key, i) == Some(k),
    decreases k - i,
{
    if i < k {
        assert(!occurs_at(s, key, i as int));
        lemma_find_is(s, key, i + 1, k);
    }
}

/// Whether `key` stands in `chars` at position `i`.
fn occurs_here(chars: &Vec<char>, key: &Vec<char>, i: usize) -> (r: bool)
    requires
        i + key.len() <= chars.len(),
    ensures
        r == occurs_at(chars@, key@, i as int),
{
    let mut k: usize = 0;
    while k < key.len()
        invariant
            k <= key.len(),
            i + key.len() <= chars.len(),
            forall|j: int| 0 <= j < k ==> chars@[i + j] == key@[j],
        decreases key.len() - k,
    {
        if chars[i + k] != key[k] {
            assert(chars@.subrange(i as int, i + key@.len())[k as int] != key@[k as int]);
            return false;
        }
        k += 1;
    }
    assert(chars@.subrange(i as int, i + key@.len()) == key@);
    true
}

/// The first position from `from` on at which `key` stands in `chars`.
pub fn find_chars(chars: &Vec<char>, key: &Vec<char>, from: usize) -> (r: Option<usize>)
    requires
        from <= chars.len(),
    ensures
        match r {
            Some(i) => find_from(chars@, key@, from as nat) == Some(i as nat),
            None => find_from(chars@, key@, from as nat) is None,
        },
        r matches Some(i) ==> from <= i && i + key.len() <= chars.len(),
{
    let n: usize = chars.len();
    let m: usize = key.len();
    if m > n - from {
        return None;
    }
    let last: usize = n - m;
    let mut i: usize = from;
    while i < last
        invariant
            from <= i <= last,
            last + m == n,
            n == chars.len(),
            m == key.len(),
            find_from(chars@, key@, from as nat) == find_from(chars@, key@, i as nat),
        decreases last - i,
    {
        if occurs_here(chars, key, i) {
            return Some(i);
        }
        i += 1;
    }
    if occurs_here(chars, key, i) {
        Some(i)
    } else {
        assert(find_from(chars@, key@, (i + 1) as nat) is None);
        None
    }
}

/// Whether `key` stands anywhere in `s`.
pub open spec fn holds(s: Seq<char>, key: Seq<char>) -> bool {
    exists|i: int| occurs_at(s, key, i)
}

/// Every piece of a text occurs in it, the last one at its end.
pub proof fn lemma_pieces_occur(s: Seq<char>, sep: char)
    ensures
        split(s, sep).len() >= 1,
        occurs_at(s, split(s, sep).last(), s.len() - split(s, sep).last().len()),
        forall|k: int| 0 <= k < split(s, sep).len() ==> holds(s, #[trigger] split(s, sep)[k]),
    decreases s.len(),
{
    let pieces = split(s, sep);
    if s.len() == 0 {
        assert(s.subrange(0, 0) == pieces[0]);
        assert(occurs_at(s, pieces[0], 0));
    } else {
        let t = s.drop_last();
        let before = split(t, sep);
        lemma_pieces_occur(t, sep);
        let last = pieces.last();
        assert(s.subrange(s.len() - last.len(), s.len() as int) == last) by {
            if s.last() != sep {
                let start = t.len() - before.last().len();
                assert(t.subrange(start, t.len() as int) == before.last());
                assert(s.subrange(start, s.len() as int) == t.subrange(start, t.len() as int).push(
                    s.last(),
                ));
            }
        }
        assert(occurs_at(s, last, s.len() - last.len()));
        assert forall|k: int| 0 <= k < pieces.len() implies holds(s, #[trigger] pieces[k]) by {
            if k < pieces.len() - 1 {
                assert(pieces[k] == before[k]);
                let i = choose|i: int| occurs_at(t, before[k], i);
                assert(s.subrange(i, i + before[k].len()) == t.subrange(i, i + before[k].len()));
                assert(occurs_at(s, pieces[k], i));
            }
        }
    }
}

/// Whether `key` stands anywhere in `s`.
pub fn text_holds(s: &str, key: &str) -> (r: bool)
    ensures
        r == holds(s@, key@),
{
    let chars = chars_of(s);
    let key_chars = chars_of(key);
    proof {
        lemma_find_from(s@, key@, 0);
    }
    match find_chars(&chars, &key_chars, 0) {
        Some(i) => {
            assert(occurs_at(s@, key@, i as int));
            true
        },
        None => {
            false
        },
    }
}

// --------------------------------------------------------------------------
// Replacing
// --------------------------------------------------------------------------

/// `s` from position `i` on, with each occurrence of `from` replaced by `to`.
/// Occurrences are found from left to right and do not overlap.
pub open spec fn replace_from(s: Seq<char>, from: Seq<char>, to: Seq<char>, i: nat) -> Seq<char>
    decreases s.len() - i,
{
    if i >= s.len() || from.len() == 0 {
        Seq::empty()
    } else if occurs_at(s, from, i as int) {
        to + replace_from(s, from, to, i + from.len())
    } else {
        seq![s[i as int]] + replace_from(s, from, to, i + 1)
    }
}

/// `s` with each occurrence of `from` replaced by `to`.
pub open spec fn replace(s: Seq<char>, from: Seq<char>, to: Seq<char>) -> Seq<char> {
    replace_from(s, from, to, 0)
}

proof fn lemma_replace_absent(s: Seq<char>, from: Seq<char>, to: Seq<char>, i: nat)
    requires
        from.len() > 0,
        !holds(s, from),
        i <= s.len(),
    ensures
        replace_from(s, from, to, i) == s.skip(i as int),
    decreases s.len() - i,
{
    if i < s.len() {
        lemma_replace_absent(s, from, to, i + 1);
        assert(!occurs_at(s, from, i as int));
        assert(s.skip(i as int) == seq![s[i as int]] + s.skip(i as int + 1));
    }
}

/// Replacing what does not occur changes nothing.
pub proof fn law_replace_absent(s: Seq<char>, from: Seq<char>, to: Seq<char>)
    requires
        from.len() > 0,
        !holds(s, from),
    ensures
        replace(s, from, to) == s,
{
    lemma_replace_absent(s, from, to, 0);
    assert(s.skip(0) == s);
}

/// Replaces each occurrence of `from` by `to`.
pub fn replace_text(s: &str, from: &str, to: &str) -> (r: String)
    requires
        from@.len() > 0,
    ensures
        r@ == replace(s@, from@, to@),
{
    let chars = chars_of(s);
    let key = chars_of(from);
    let n: usize = chars.len();
    let m: usize = key.len();
    let mut result = String::new();
    let mut i: usize = 0;
    while i < n
        invariant
            i <= n == chars.len(),
            m == key.len() > 0,
            chars@ == s@,
            key@ == from@,
            result@ + replace_from(s@, from@, to@, i as nat) == replace(s@, from@, to@),
        decreases n - i,
    {
        let ghost before = result@;
        if m <= n - i && occurs_here(&chars, &key, i) {
            result.append(to);
            assert(before + (to@ + replace_from(s@, from@, to@, (i + m) as nat))
                == result@ + replace_from(s@, from@, to@, (i + m) as nat));
            i += m;
        } else {
            result.push(chars[i]);
            assert(before + (seq![s@[i as int]] + replace_from(s@, from@, to@, (i + 1) as nat))
                == result@ + replace_from(s@, from@, to@, (i + 1) as nat));
            i += 1;
        }
    }
    assert(result@ + replace_from(s@, from@, to@, i as nat) == result@);
    result
}

// --------------------------------------------------------------------------
// Ordering
// --------------------------------------------------------------------------

/// Whether `a` stands before `b` in the dictionary order of their characters,
/// or is `b`.
pub open spec fn text_le(a: Seq<char>, b: Seq<char>) -> bool
    decreases a.len(),
{
    if a.len() == 0 {
        true
    } else if b.len() == 0 {
        false
    } else if a[0] == b[0] {
        text_le(a.skip(1), b.skip(1))
    } else {
        a[0] < b[0]
    }
}

/// Whether `a` stands strictly before `b`.
pub open spec fn text_lt(a: Seq<char>, b: Seq<char>) -> bool {
    text_le(a, b) && a != b
}

pub proof fn lemma_text_le_reflexive(a: Seq<char>)
    ensures
        text_le(a, a),
    decreases a.len(),
{
    if a.len() > 0 {
        lemma_text_le_reflexive(a.skip(1));
    }
}

pub proof fn lemma_text_le_total(a: Seq<char>, b: Seq<char>)
    ensures
        text_le(a, b) || text_le(b, a),
    decreases a.len(),
{
    if a.len() > 0 && b.len() > 0 && a[0] == b[0] {
        lemma_text_le_total(a.skip(1), b.skip(1));
    }
}

pub proof fn lemma_text_le_antisymmetric(a: Seq<char>, b: Seq<char>)
    requires
        text_le(a, b),
        text_le(b, a),
    ensures
        a == b,
    decreases a.len(),
{
    if a.len() > 0 && b.len() > 0 {
        lemma_text_le_antisymmetric(a.skip(1), b.skip(1));
        assert(a == seq![a[0]] + a.skip(1));
        assert(b == seq![b[0]] + b.skip(1));
    } else {
        assert(a == b);
    }
}

pub proof fn lemma_text_le_transitive(a: Seq<char>, b: Seq<char>, c: Seq<char>)
    requires
        text_le(a, b),
        text_le(b, c),
    ensures
        text_le(a, c),
    decreases a.len(),
{
    if a.len() > 0 && b.len() > 0 && c.len() > 0 && a[0] == b[0] && b[0] == c[0] {
        lemma_text_le_transitive(a.skip(1), b.skip(1), c.skip(1));
    }
}

/// The dictionary order of texts is a total order.
pub proof fn law_text_order_is_total()
    ensures
        vstd::relations::total_ordering(|a: Seq<char>, b: Seq<char>| text_le(a, b)),
{
    assert forall|a: Seq<char>| text_le(a, a) by {
        lemma_text_le_reflexive(a);
    }
    assert forall|a: Seq<char>, b: Seq<char>| text_le(a, b) && text_le(b, a) implies a == b by {
        lemma_text_le_antisymmetric(a, b);
    }
    assert forall|a: Seq<char>, b: Seq<char>, c: Seq<char>|
        text_le(a, b) && text_le(b, c) implies text_le(a, c) by {
        lemma_text_le_transitive(a, b, c);
    }
    assert forall|a: Seq<char>, b: Seq<char>| text_le(a, b) || text_le(b, a) by {
        lemma_text_le_total(a, b);
    }
}

/// Whether `a` stands before `b` in the dictionary order, or is `b`.
pub fn text_in_order(a: &str, b: &str) -> (r: bool)
    ensures
        r == text_le(a@, b@),
{
    let x = chars_of(a);
    let y = chars_of(b);
    let mut i: usize = 0;
    assert(a@.skip(0) == a@ && b@.skip(0) == b@);
    while i < x.len() && i < y.len()
        invariant
            x@ == a@,
            y@ == b@,
            i <= x.len(),
            i <= y.len(),
            text_le(a@, b@) == text_le(a@.skip(i as int), b@.skip(i as int)),
        decreases x.len() - i,
    {
        if x[i] != y[i] {
            return x[i] < y[i];
        }
        assert(a@.skip(i as int).skip(1) == a@.skip(i + 1));
        assert(b@.skip(i as int).skip(1) == b@.skip(i + 1));
        i += 1;
    }
    i == x.len()
}

/// Texts are ordered by the first character in which they differ, and a text that
/// another one starts with stands before it.
pub proof fn law_text_order_is_by_first_difference(
    front: Seq<char>,
    a: char,
    b: char,
    x: Seq<char>,
    y: Seq<char>,
)
    requires
        a < b,
    ensures
        text_le(front.push(a) + x, front.push(b) + y),
        !text_le(front.push(b) + y, front.push(a) + x),
        text_le(front, front + x),
        x.len() > 0 ==> !text_le(front + x, front),
    decreases front.len(),
{
    let p = front.push(a) + x;
    let q = front.push(b) + y;
    if front.len() == 0 {
        assert(p[0] == a && q[0] == b);
    } else {
        let rest = front.skip(1);
        law_text_order_is_by_first_difference(rest, a, b, x, y);
        assert(p.skip(1) == rest.push(a) + x);
        assert(q.skip(1) == rest.push(b) + y);
        assert((front + x).skip(1) == rest + x);
    }
}

// --------------------------------------------------------------------------
// How operations on a text follow from its parts
// --------------------------------------------------------------------------

/// A text stands in another exactly where the other is made of something, the text
/// and something.
pub proof fn law_occurrence_is_a_part(s: Seq<char>, key: Seq<char>, i: int)
    ensures
        occurs_at(s, key, i) <==> exists|a: Seq<char>, b: Seq<char>|
            a.len() == i && s == #[trigger] (a + key + b),
{
    if occurs_at(s, key, i) {
        let a = s.take(i);
        let b = s.skip(i + key.len());
        assert(s.subrange(i, i + key.len()) == key);
        assert(s == a + key + b);
    }
    if exists|a: Seq<char>, b: Seq<char>| a.len() == i && s == #[trigger] (a + key + b) {
        let (a, b) = choose|a: Seq<char>, b: Seq<char>| a.len() == i && s == #[trigger] (a + key + b);
        assert(s.subrange(i, i + key.len()) == key);
    }
}

/// A separator parts the pieces before it from those behind it, and a text without
/// one is a single piece.
pub proof fn law_split_at_separator(a: Seq<char>, sep: char, b: Seq<char>)
    ensures
        split(a.push(sep) + b, sep) == split(a, sep) + split(b, sep),
        !b.contains(sep) ==> split(b, sep) == seq![b],
    decreases b.len(),
{
    let s = a.push(sep) + b;
    if b.len() == 0 {
        assert(s == a.push(sep));
        assert(s.drop_last() == a);
        assert(split(a, sep) + split(b, sep) == split(a, sep).push(Seq::<char>::empty()));
        assert(b == Seq::<char>::empty());
    } else {
        let c = b.drop_last();
        law_split_at_separator(a, sep, c);
        lemma_split_not_empty(c, sep);
        assert(s.drop_last() == a.push(sep) + c);
        assert(s.last() == b.last());
        let front = split(a, sep);
        let back = split(c, sep);
        if b.last() != sep {
            assert((front + back).last() == back.last());
            assert((front + back).drop_last() == front + back.drop_last());
            assert(split(s, sep) == front + split(b, sep));
        } else {
            assert(split(s, sep) == front + split(b, sep));
        }
        if !b.contains(sep) {
            assert(b[b.len() - 1] != sep);
            assert(!c.contains(sep)) by {
                if c.contains(sep) {
                    let k = choose|k: int| 0 <= k < c.len() && c[k] == sep;
                    assert(b[k] == sep);
                }
            }
            assert(seq![c].drop_last() == Seq::<Seq<char>>::empty());
            assert(c.push(b.last()) == b);
        }
    }
}

/// Joining pieces and splitting them again gives the pieces.
pub proof fn law_join_then_split(pieces: Seq<Seq<char>>, sep: char)
    requires
        pieces.len() > 0,
        forall|i: int| 0 <= i < pieces.len() ==> !(#[trigger] pieces[i]).contains(sep),
    ensures
        split(join(pieces, sep), sep) == pieces,
    decreases pieces.len(),
{
    let last = pieces.last();
    assert(last == pieces[pieces.len() - 1]);
    law_split_at_separator(Seq::empty(), sep, last);
    if pieces.len() == 1 {
        assert(pieces == seq![last]);
    } else {
        let front = pieces.drop_last();
        assert forall|i: int| 0 <= i < front.len() implies !(#[trigger] front[i]).contains(sep) by {
            assert(front[i] == pieces[i]);
        }
        law_join_then_split(front, sep);
        law_split_at_separator(join(front, sep), sep, last);
        assert(front + seq![last] == pieces);
    }
}

/// The first line of a text ends at its first newline; a carriage return in front
/// of the newline belongs to the ending. The lines behind it follow. A text without
/// a newline is one line, if it is not empty.
pub proof fn law_lines_end_at_newlines(line: Seq<char>, rest: Seq<char>)
    requires
        !line.contains('\n'),
    ensures
        (line.len() == 0 || line.last() != '\r') ==> lines(line.push('\n') + rest) == seq![line] + lines(
            rest,
        ),
        lines(line.push('\r').push('\n') + rest) == seq![line] + lines(rest),
        line.len() > 0 ==> lines(line) == seq![line],
        lines(Seq::<char>::empty()) == Seq::<Seq<char>>::empty(),
{
    let strip = |l: Seq<char>| without_return(l);
    law_split_at_separator(line, '\n', rest);
    law_split_at_separator(line.push('\r'), '\n', rest);
    law_split_at_separator(Seq::empty(), '\n', line);
    law_split_at_separator(Seq::empty(), '\n', Seq::empty());
    let returned = line.push('\r');
    assert(!returned.contains('\n')) by {
        if returned.contains('\n') {
            let k = choose|k: int| 0 <= k < returned.len() && returned[k] == '\n';
            assert(line[k] == '\n');
        }
    }
    law_split_at_separator(Seq::empty(), '\n', returned);
    lemma_split_not_empty(rest, '\n');
    let pieces = split(rest, '\n');
    assert((seq![line] + pieces).drop_last() == seq![line] + pieces.drop_last());
    assert((seq![returned] + pieces).drop_last() == seq![returned] + pieces.drop_last());
    assert((seq![line] + pieces.drop_last()).map_values(strip) =~= seq![without_return(line)]
        + pieces.drop_last().map_values(strip));
    assert((seq![returned] + pieces.drop_last()).map_values(strip) =~= seq![
        without_return(returned),
    ] + pieces.drop_last().map_values(strip));
    assert(without_return(returned) == line) by {
        assert(returned.drop_last() == line);
    }
    assert(lines(line.push('\r').push('\n') + rest) == seq![line] + lines(rest));
    assert(seq![line].drop_last().map_values(strip) == Seq::<Seq<char>>::empty());
    let nothing = Seq::<char>::empty();
    assert(seq![nothing].drop_last().map_values(strip) == Seq::<Seq<char>>::empty());
}

proof fn lemma_replace_from_rest(s: Seq<char>, from: Seq<char>, to: Seq<char>, i: nat)
    requires
        from.len() > 0,
        i <= s.len(),
    ensures
        replace_from(s, from, to, i) == replace(s.skip(i as int), from, to),
{
    lemma_replace_from_shift(s, from, to, i, 0);
}

proof fn lemma_replace_from_shift(s: Seq<char>, from: Seq<char>, to: Seq<char>, i: nat, j: nat)
    requires
        from.len() > 0,
        i + j <= s.len(),
    ensures
        replace_from(s, from, to, i + j) == replace_from(s.skip(i as int), from, to, j),
    decreases s.len() - i - j,
{
    let rest = s.skip(i as int);
    let k = (i + j) as int;
    if k < s.len() {
        assert(occurs_at(s, from, k) == occurs_at(rest, from, j as int)) by {
            if k + from.len() <= s.len() {
                assert(s.subrange(k, k + from.len()) == rest.subrange(
                    j as int,
                    (j + from.len()) as int,
                ));
            }
        }
        if occurs_at(s, from, k) {
            lemma_replace_from_shift(s, from, to, i, j + from.len());
        } else {
            lemma_replace_from_shift(s, from, to, i, j + 1);
        }
    }
}

proof fn lemma_replace_front(s: Seq<char>, from: Seq<char>, to: Seq<char>, i: nat, k: nat)
    requires
        from.len() > 0,
        i <= k,
        occurs_at(s, from, k as int),
        forall|j: int| i <= j < k ==> !occurs_at(s, from, j),
    ensures
        replace_from(s, from, to, i) == s.subrange(i as int, k as int) + to + replace_from(
            s,
            from,
            to,
            k + from.len(),
        ),
    decreases k - i,
{
    if i < k {
        assert(!occurs_at(s, from, i as int));
        lemma_replace_front(s, from, to, i + 1, k);
        assert(s.subrange(i as int, k as int) == seq![s[i as int]] + s.subrange((i + 1) as int, k as int));
    } else {
        assert(s.subrange(i as int, k as int) == Seq::<char>::empty());
    }
}

/// The first occurrence is replaced, what stands before it stays, and what stands
/// behind it is replaced on its own.
pub proof fn law_replace_goes_on_behind(
    a: Seq<char>,
    from: Seq<char>,
    b: Seq<char>,
    to: Seq<char>,
)
    requires
        from.len() > 0,
        forall|j: int| 0 <= j < a.len() ==> !occurs_at(a + from + b, from, j),
    ensures
        replace(a + from + b, from, to) == a + to + replace(b, from, to),
{
    let s = a + from + b;
    assert(s.subrange(a.len() as int, (a.len() + from.len()) as int) == from);
    lemma_replace_front(s, from, to, 0, a.len());
    lemma_replace_from_rest(s, from, to, a.len() + from.len());
    assert(s.skip((a.len() + from.len()) as int) == b);
    assert(s.subrange(0, a.len() as int) == a);
}

/// A text holds another exactly if it is made of something, the other and something.
pub proof fn law_held_text_is_a_part(s: Seq<char>, key: Seq<char>)
    ensures
        holds(s, key) <==> exists|a: Seq<char>, b: Seq<char>| s == #[trigger] (a + key + b),
{
    if holds(s, key) {
        let i = choose|i: int| occurs_at(s, key, i);
        law_occurrence_is_a_part(s, key, i);
    }
    if exists|a: Seq<char>, b: Seq<char>| s == #[trigger] (a + key + b) {
        let (a, b) = choose|a: Seq<char>, b: Seq<char>| s == #[trigger] (a + key + b);
        law_occurrence_is_a_part(s, key, a.len() as int);
        assert(occurs_at(s, key, a.len() as int));
    }
}

} // verus!
