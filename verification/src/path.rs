//! File paths as text. They are paths of Unix: a slash stands between the parts of
//! a path, and at the front of one that starts at the root.

use vstd::prelude::*;

use crate::text::{chars_of, same_text, split_text};
use crate::text::{
    holds, join, law_split_at_separator, law_split_then_join, lemma_pieces_occur,
    lemma_split_not_empty, occurs_at, split,
};

verus! {

/// Whether a piece between the slashes of a path is a component. Empty pieces are
/// none, nor is `.` unless the path starts with it.
pub open spec fn is_component(piece: Seq<char>, is_first: bool) -> bool {
    piece.len() > 0 && (piece != "."@ || is_first)
}

/// The components among the pieces between the slashes of a path.
pub open spec fn components_in(pieces: Seq<Seq<char>>) -> Seq<Seq<char>>
    decreases pieces.len(),
{
    if pieces.len() == 0 {
        Seq::empty()
    } else {
        let before = components_in(pieces.drop_last());
        if is_component(pieces.last(), pieces.len() == 1) {
            before.push(pieces.last())
        } else {
            before
        }
    }
}

/// The root, where a path starts at it.
pub open spec fn root_of(path: Seq<char>) -> Seq<Seq<char>> {
    if path.len() > 0 && path[0] == '/' {
        seq!["/"@]
    } else {
        Seq::empty()
    }
}

/// The text of each component of a path: the root, where the path starts at it,
/// and what stands between the slashes. Two paths are equal exactly if their
/// components agree.
pub open spec fn path_components(path: Seq<char>) -> Seq<Seq<char>> {
    root_of(path) + components_in(split(path, '/'))
}

/// What `Path::strip_prefix` leaves of a path that lies under a directory.
pub uninterp spec fn path_below(path: Seq<char>, dir: Seq<char>) -> Seq<char>;

/// What `Path::parent` gives for a path that has a parent.
pub uninterp spec fn path_parent(path: Seq<char>) -> Seq<char>;

/// Whether a path lies under a directory, or is the directory.
pub open spec fn is_below(path: Seq<char>, dir: Seq<char>) -> bool {
    path_components(dir).is_prefix_of(path_components(path))
}

/// Every component of a path stands in the path.
pub proof fn lemma_components_occur(path: Seq<char>)
    ensures
        forall|i: int|
            0 <= i < path_components(path).len() ==> holds(path, #[trigger] path_components(path)[i]),
{
    let pieces = split(path, '/');
    lemma_pieces_occur(path, '/');
    lemma_components_are_pieces(pieces);
    assert forall|i: int| 0 <= i < path_components(path).len() implies holds(
        path,
        #[trigger] path_components(path)[i],
    ) by {
        if i < root_of(path).len() {
            reveal_strlit("/");
            assert(path.subrange(0, 1) == "/"@);
            assert(occurs_at(path, "/"@, 0));
        } else {
            let j = i - root_of(path).len();
            assert(path_components(path)[i] == components_in(pieces)[j]);
        }
    }
}

proof fn lemma_components_are_pieces(pieces: Seq<Seq<char>>)
    ensures
        forall|i: int|
            0 <= i < components_in(pieces).len() ==> pieces.contains(
                #[trigger] components_in(pieces)[i],
            ),
    decreases pieces.len(),
{
    if pieces.len() > 0 {
        let before = pieces.drop_last();
        lemma_components_are_pieces(before);
        assert forall|i: int| 0 <= i < components_in(pieces).len() implies pieces.contains(
            #[trigger] components_in(pieces)[i],
        ) by {
            if i < components_in(before).len() {
                let k = choose|k: int| 0 <= k < before.len() && before[k] == components_in(before)[i];
                assert(pieces[k] == components_in(pieces)[i]);
            } else {
                assert(pieces[pieces.len() - 1] == components_in(pieces)[i]);
            }
        }
    }
}

/// The text of each component of a path.
pub fn components_of(path: &str) -> (r: Vec<String>)
    ensures
        r.deep_view() == path_components(path@),
{
    let chars = chars_of(path);
    let mut result: Vec<String> = Vec::new();
    if chars.len() > 0 && chars[0] == '/' {
        result.push("/".to_owned());
    }
    assert(result.deep_view() == root_of(path@));
    let pieces = split_text(path, '/');
    let ghost all = pieces.deep_view();
    assert(all.take(0) == Seq::<Seq<char>>::empty());
    let mut i: usize = 0;
    while i < pieces.len()
        invariant
            i <= pieces.len(),
            all == pieces.deep_view(),
            result.deep_view() == root_of(path@) + components_in(all.take(i as int)),
        decreases pieces.len() - i,
    {
        let ghost before = result.deep_view();
        assert(all.take(i + 1).drop_last() == all.take(i as int));
        assert(all[i as int] == pieces[i as int]@);
        if !pieces[i].as_str().is_empty() && (i == 0 || !same_text(pieces[i].as_str(), ".")) {
            let piece = pieces[i].clone();
            result.push(piece);
            assert(result.deep_view() == before.push(piece@));
        }
        i += 1;
    }
    assert(all.take(i as int) == all);
    result
}

/// `Path::strip_prefix`: the path relative to `dir`, or `None` if the components
/// of `dir` are not the first components of `path`. What is left has the other
/// components of `path`; how it spells them is not stated.
#[verifier::external_body]
pub(crate) fn strip_prefix(path: &str, dir: &str) -> (r: Option<String>)
    ensures
        r is Some <==> is_below(path@, dir@),
        r matches Some(rest) ==> rest@ == path_below(path@, dir@),
        r matches Some(rest) ==> path_components(rest@) == path_components(path@).skip(
            path_components(dir@).len() as int,
        ),
{
    std::path::Path::new(path)
        .strip_prefix(dir)
        .ok()
        .map(|p| p.to_string_lossy().into_owned())
}

/// Whether a path has a component to take away: not an empty path, nor the root.
pub open spec fn has_parent(path: Seq<char>) -> bool {
    path_components(path).len() > 0 && path_components(path).last() != "/"@
}

/// `Path::parent`: the path without its last component, `None` for an empty path
/// and for the root. How the other components are spelled is not stated.
#[verifier::external_body]
pub(crate) fn parent_of(path: &str) -> (r: Option<String>)
    ensures
        r is Some <==> has_parent(path@),
        r matches Some(parent) ==> parent@ == path_parent(path@),
        r matches Some(parent) ==> path_components(parent@) == path_components(path@).drop_last(),
{
    std::path::Path::new(path).parent().map(|p| p.to_string_lossy().into_owned())
}

/// A path with one more part: a part that starts at the root replaces the path,
/// any other part is added behind a separator.
pub open spec fn path_join(path: Seq<char>, part: Seq<char>) -> Seq<char> {
    if part.len() > 0 && part[0] == '/' {
        part
    } else if path.len() == 0 || path.last() == '/' {
        path + part
    } else {
        path.push('/') + part
    }
}

/// A path with more parts, added from left to right.
pub open spec fn path_join_all(path: Seq<char>, parts: Seq<Seq<char>>) -> Seq<char>
    decreases parts.len(),
{
    if parts.len() == 0 {
        path
    } else {
        path_join(path_join_all(path, parts.drop_last()), parts.last())
    }
}

/// Adds a part to a path.
pub fn join_path(path: &str, part: &str) -> (r: String)
    ensures
        r@ == path_join(path@, part@),
{
    let chars = chars_of(path);
    let more = chars_of(part);
    if more.len() > 0 && more[0] == '/' {
        return part.to_owned();
    }
    let n: usize = chars.len();
    let mut result = path.to_owned();
    if n > 0 && chars[n - 1] != '/' {
        result.push('/');
    }
    result.append(part);
    result
}

/// Adds the parts from `from` on to a path.
pub fn join_parts(path: &str, parts: &Vec<String>, from: usize) -> (r: String)
    requires
        from <= parts.len(),
    ensures
        r@ == path_join_all(path@, parts.deep_view().skip(from as int)),
{
    let mut result = path.to_owned();
    let ghost all = parts.deep_view().skip(from as int);
    let mut i: usize = from;
    assert(all.take(0) == Seq::<Seq<char>>::empty());
    while i < parts.len()
        invariant
            from <= i <= parts.len(),
            all == parts.deep_view().skip(from as int),
            result@ == path_join_all(path@, all.take(i - from)),
        decreases parts.len() - i,
    {
        result = join_path(result.as_str(), parts[i].as_str());
        assert(all.take(i - from + 1).drop_last() == all.take(i - from));
        i += 1;
    }
    assert(all.take(i - from) == all);
    result
}

/// What follows the last dot of a file name. A name without a dot has no
/// extension, nor has one whose only dot is its first character.
pub open spec fn name_extension(name: Seq<char>) -> Option<Seq<char>> {
    let pieces = split(name, '.');
    if pieces.len() < 2 || (pieces.len() == 2 && pieces[0].len() == 0) {
        None
    } else {
        Some(pieces.last())
    }
}

/// The extension of the file that a path names. A path without components, and
/// one that ends in `..`, names no file.
pub open spec fn path_extension(path: Seq<char>) -> Option<Seq<char>> {
    let parts = path_components(path);
    if parts.len() == 0 || parts.last() == ".."@ {
        None
    } else {
        name_extension(parts.last())
    }
}

/// The extension of a file name.
pub fn extension_of_name(name: &str) -> (r: Option<String>)
    ensures
        r.deep_view() == name_extension(name@),
{
    let mut pieces = split_text(name, '.');
    let n: usize = pieces.len();
    if n < 2 || (n == 2 && chars_of(pieces[0].as_str()).len() == 0) {
        None
    } else {
        Some(pieces[n - 1].clone())
    }
}

/// The extension of the file that a path names.
pub fn extension_of(path: &str) -> (r: Option<String>)
    ensures
        r.deep_view() == path_extension(path@),
{
    let parts = components_of(path);
    let n: usize = parts.len();
    if n == 0 || same_text(parts[n - 1].as_str(), "..") {
        None
    } else {
        extension_of_name(parts[n - 1].as_str())
    }
}

// --------------------------------------------------------------------------
// How paths are made of names
// --------------------------------------------------------------------------

/// Whether a text names something in a directory: it is not empty, holds no slash,
/// and is not the directory itself.
pub open spec fn is_name(s: Seq<char>) -> bool {
    s.len() > 0 && !s.contains('/') && s != seq!['.']
}

/// Whether a text is a place for a name: the current directory, or a directory
/// with a slash behind it.
pub open spec fn is_place(s: Seq<char>) -> bool {
    s.len() == 0 || s.last() == '/'
}

proof fn lemma_components_in_push(pieces: Seq<Seq<char>>, piece: Seq<char>)
    ensures
        components_in(pieces.push(piece)) == if is_component(piece, pieces.len() == 0) {
            components_in(pieces).push(piece)
        } else {
            components_in(pieces)
        },
{
    assert(pieces.push(piece).drop_last() == pieces);
}

/// A name behind a directory is the last component of the path, behind those of the
/// directory.
pub proof fn law_name_is_last_component(dir: Seq<char>, name: Seq<char>)
    requires
        is_place(dir),
        is_name(name),
    ensures
        path_components(dir + name) == path_components(dir).push(name),
{
    reveal_strlit(".");
    assert("."@ == seq!['.']);
    law_split_at_separator(Seq::empty(), '/', name);
    law_split_at_separator(Seq::empty(), '/', Seq::empty());
    if dir.len() == 0 {
        assert(dir + name == name);
        assert(dir == Seq::<char>::empty());
        assert(seq![name] == Seq::<Seq<char>>::empty().push(name));
        lemma_components_in_push(Seq::empty(), name);
        lemma_components_in_push(Seq::empty(), Seq::empty());
        assert(seq![Seq::<char>::empty()] == Seq::<Seq<char>>::empty().push(Seq::empty()));
        assert(root_of(name) == Seq::<Seq<char>>::empty()) by {
            assert(name.contains(name[0]));
        }
    } else {
        let front = dir.drop_last();
        assert(front.push('/') == dir);
        law_split_at_separator(front, '/', name);
        law_split_at_separator(front, '/', Seq::empty());
        assert(dir + Seq::<char>::empty() == dir);
        lemma_split_not_empty(front, '/');
        let pieces = split(front, '/');
        assert(pieces + seq![name] == pieces.push(name));
        assert(pieces + seq![Seq::<char>::empty()] == pieces.push(Seq::empty()));
        lemma_components_in_push(pieces, name);
        lemma_components_in_push(pieces, Seq::empty());
        assert(root_of(dir + name) == root_of(dir));
        assert(root_of(dir) + components_in(pieces).push(name) == (root_of(dir) + components_in(
            pieces,
        )).push(name));
    }
}

/// A slash behind a path, or a slash and a dot, changes none of its components. The
/// empty path has none, and a single slash stands for the root.
pub proof fn law_trailing_slash_is_no_component(path: Seq<char>)
    ensures
        path.len() > 0 ==> path_components(path.push('/')) == path_components(path),
        path.len() > 0 ==> path_components(path.push('/').push('.')) == path_components(path),
        path_components(Seq::<char>::empty()) == Seq::<Seq<char>>::empty(),
        path_components(seq!['/']) == seq![seq!['/']],
        path_components(seq!['.']) == seq![seq!['.']],
{
    reveal_strlit(".");
    reveal_strlit("/");
    let nothing = Seq::<char>::empty();
    let dot = seq!['.'];
    assert("."@ == dot);
    assert("/"@ == seq!['/']);
    assert(!dot.contains('/'));
    law_split_at_separator(path, '/', nothing);
    law_split_at_separator(path, '/', dot);
    law_split_at_separator(nothing, '/', nothing);
    lemma_split_not_empty(path, '/');
    let pieces = split(path, '/');
    assert(path.push('/') + nothing == path.push('/'));
    assert(path.push('/') + dot == path.push('/').push('.'));
    assert(pieces + seq![nothing] == pieces.push(nothing));
    assert(pieces + seq![dot] == pieces.push(dot));
    lemma_components_in_push(pieces, nothing);
    lemma_components_in_push(pieces, dot);
    let none = Seq::<Seq<char>>::empty();
    lemma_components_in_push(none, nothing);
    lemma_components_in_push(none, dot);
    assert(seq![nothing] == none.push(nothing));
    assert(seq![dot] == none.push(dot));
    assert(nothing.push('/') + nothing == seq!['/']);
    assert(seq![nothing] + seq![nothing] == seq![nothing].push(nothing));
    lemma_components_in_push(seq![nothing], nothing);
}

/// A name added to a path is its last component; a part that starts at the root
/// replaces the path.
pub proof fn law_joined_name_is_last_component(path: Seq<char>, part: Seq<char>)
    ensures
        is_name(part) ==> path_components(path_join(path, part)) == path_components(path).push(part),
        part.len() > 0 && part[0] == '/' ==> path_join(path, part) == part,
{
    if is_name(part) {
        assert(part.contains(part[0]));
        if is_place(path) {
            law_name_is_last_component(path, part);
        } else {
            law_trailing_slash_is_no_component(path);
            law_name_is_last_component(path.push('/'), part);
        }
    }
}

/// Names added to a path follow its components, in their order.
pub proof fn law_joined_names_follow(path: Seq<char>, parts: Seq<Seq<char>>)
    requires
        forall|i: int| 0 <= i < parts.len() ==> is_name(#[trigger] parts[i]),
    ensures
        path_components(path_join_all(path, parts)) == path_components(path) + parts,
    decreases parts.len(),
{
    if parts.len() == 0 {
        assert(path_components(path) + parts == path_components(path));
    } else {
        let front = parts.drop_last();
        assert forall|i: int| 0 <= i < front.len() implies is_name(#[trigger] front[i]) by {
            assert(front[i] == parts[i]);
        }
        law_joined_names_follow(path, front);
        assert(parts.last() == parts[parts.len() - 1]);
        law_joined_name_is_last_component(path_join_all(path, front), parts.last());
        assert((path_components(path) + front).push(parts.last()) == path_components(path) + parts);
    }
}

/// What follows the last dot of a file name is its extension, if something stands
/// before the dot. A name without a dot has none, nor has one with its only dot at
/// the front, nor `..`.
pub proof fn law_extension_follows_the_last_dot(
    dir: Seq<char>,
    stem: Seq<char>,
    ext: Seq<char>,
)
    requires
        is_place(dir),
        !stem.contains('/'),
        !ext.contains('/'),
        !ext.contains('.'),
    ensures
        stem.len() > 0 && stem.push('.') + ext != seq!['.', '.'] ==> path_extension(
            dir + (stem.push('.') + ext),
        ) == Some(ext),
        ext.len() > 0 ==> path_extension(dir + ext) is None,
        ext.len() > 0 ==> path_extension(dir + (seq!['.'] + ext)) is None,
        path_extension(dir + seq!['.', '.']) is None,
{
    reveal_strlit("..");
    assert(".."@ == seq!['.', '.']);
    let name = stem.push('.') + ext;
    let hidden = seq!['.'] + ext;
    let nothing = Seq::<char>::empty();
    law_split_at_separator(stem, '.', ext);
    law_split_at_separator(nothing, '.', ext);
    assert(nothing.push('.') + ext == hidden);
    law_split_at_separator(nothing, '.', nothing);
    lemma_split_not_empty(stem, '.');
    assert(!name.contains('/')) by {
        if name.contains('/') {
            let k = choose|k: int| 0 <= k < name.len() && name[k] == '/';
            if k < stem.len() {
                assert(stem[k] == '/');
            } else if k > stem.len() {
                assert(ext[k - stem.len() - 1] == '/');
            }
        }
    }
    assert(!hidden.contains('/')) by {
        if hidden.contains('/') {
            let k = choose|k: int| 0 <= k < hidden.len() && hidden[k] == '/';
            assert(ext[k - 1] == '/');
        }
    }
    assert(!seq!['.', '.'].contains('/'));
    if stem.len() > 0 && name != seq!['.', '.'] {
        assert(is_name(name)) by {
            assert(name.len() >= 2);
        }
        law_name_is_last_component(dir, name);
        law_split_then_join(stem, '.');
        if split(stem, '.').len() == 1 {
            assert(join(split(stem, '.'), '.') == split(stem, '.')[0]);
        }
    }
    if ext.len() > 0 {
        assert(is_name(ext)) by {
            if ext == seq!['.'] {
                assert(ext[0] == '.');
            }
        }
        law_name_is_last_component(dir, ext);
        assert(hidden.len() >= 2);
        law_name_is_last_component(dir, hidden);
        if ext == seq!['.', '.'] {
            assert(ext[0] == '.');
        }
    }
    assert(seq!['.', '.'].len() == 2);
    law_name_is_last_component(dir, seq!['.', '.']);
}

/// An empty part, and one for the directory itself, lead nowhere else.
pub proof fn law_joined_nothing_leads_nowhere(path: Seq<char>)
    requires
        path.len() > 0,
    ensures
        path_components(path_join(path, Seq::empty())) == path_components(path),
        path_components(path_join(path, seq!['.'])) == path_components(path),
        path_join(Seq::empty(), path) == path,
        path_join_all(path, Seq::empty()) == path,
{
    let nothing = Seq::<char>::empty();
    let dot = seq!['.'];
    law_trailing_slash_is_no_component(path);
    if path.last() == '/' {
        let front = path.drop_last();
        assert(front.push('/') == path);
        assert(path + nothing == path);
        assert(path + dot == front.push('/').push('.'));
        if front.len() > 0 {
            law_trailing_slash_is_no_component(front);
        } else {
            law_trailing_slash_is_no_component(nothing);
            assert(path == seq!['/']);
            law_split_at_separator(nothing, '/', dot);
            assert(!dot.contains('/'));
            assert(nothing.push('/') + dot == path + dot);
            law_split_at_separator(nothing, '/', nothing);
            reveal_strlit(".");
            reveal_strlit("/");
            assert("."@ == dot);
            assert(seq![nothing] + seq![dot] == seq![nothing].push(dot));
            lemma_components_in_push(seq![nothing], dot);
            lemma_components_in_push(Seq::empty(), nothing);
            assert(seq![nothing] == Seq::<Seq<char>>::empty().push(nothing));
            assert(root_of(path + dot) == seq!["/"@]);
            assert(seq!["/"@] + Seq::<Seq<char>>::empty() == seq!["/"@]);
            assert("/"@ == seq!['/']);
        }
    } else {
        assert(path.push('/') + nothing == path.push('/'));
        assert(path.push('/') + dot == path.push('/').push('.'));
    }
    assert(nothing + path == path);
}

/// What is named has a parent, also where it is named alone. The root has none, nor
/// has a path that names nothing.
pub proof fn law_named_file_has_a_parent(dir: Seq<char>, name: Seq<char>)
    requires
        is_place(dir),
        is_name(name),
    ensures
        has_parent(dir + name),
        has_parent(name),
        !has_parent(Seq::<char>::empty()),
        !has_parent(seq!['/']),
{
    let nothing = Seq::<char>::empty();
    law_name_is_last_component(dir, name);
    law_name_is_last_component(nothing, name);
    assert(nothing + name == name);
    reveal_strlit("/");
    assert(name != "/"@) by {
        assert(name.contains(name[0]));
    }
    law_trailing_slash_is_no_component(nothing);
    law_split_at_separator(nothing, '/', nothing);
    lemma_components_in_push(Seq::empty(), nothing);
    lemma_components_in_push(seq![nothing], nothing);
    assert(seq![nothing] == Seq::<Seq<char>>::empty().push(nothing));
    assert(nothing.push('/') + nothing == seq!['/']);
    assert(seq![nothing] + seq![nothing] == seq![nothing].push(nothing));
    assert(path_components(nothing).len() == 0);
    assert(path_components(seq!['/']) == seq!["/"@]);
}

} // verus!
