//! The virtual file system that holds the files read so far, each with the lines
//! shown for it.

use vstd::prelude::*;
use vstd::utf8::encode_utf8;

use crate::file_controller::file_cache::VfsUserData;
use crate::path::path_components;
use crate::text::{chars_of, text_of};

verus! {

/// `rls_vfs::Vfs`, which keeps files by path.
#[verifier::external_type_specification]
#[verifier::external_body]
#[verifier::reject_recursive_types(U)]
pub struct ExVfs<U>(rls_vfs::Vfs<U>);

/// What each cached file holds, by the components of its path.
pub type Files = Map<Seq<Seq<char>>, ContentsView>;

/// The lines kept with each cached file that has any user data.
pub type Shown = Map<Seq<Seq<char>>, Seq<Seq<char>>>;

/// The files that a file system holds.
pub uninterp spec fn vfs_files(vfs: rls_vfs::Vfs<VfsUserData>) -> Files;

/// The user data that a file system holds.
pub uninterp spec fn vfs_shown(vfs: rls_vfs::Vfs<VfsUserData>) -> Shown;

/// Whether the disk may give `read` for the file at a path, `None` if the file
/// cannot be read. It may answer otherwise another time.
pub uninterp spec fn disk_gives(path: Seq<char>, read: Option<ContentsView>) -> bool;

/// What a file holds.
pub enum FileContents {
    Text(String),
    Binary(Vec<u8>),
}

/// The values of a `FileContents`.
#[verifier::ext_equal]
pub enum ContentsView {
    Text(Seq<char>),
    Binary(Seq<u8>),
}

impl ContentsView {
    /// The text of a text file.
    pub open spec fn text(self) -> Option<Seq<char>> {
        match self {
            ContentsView::Text(s) => Some(s),
            ContentsView::Binary(_) => None,
        }
    }

    /// The bytes of a file.
    pub open spec fn bytes(self) -> Seq<u8> {
        match self {
            ContentsView::Text(s) => encode_utf8(s),
            ContentsView::Binary(b) => b,
        }
    }
}

impl View for FileContents {
    type V = ContentsView;

    open spec fn view(&self) -> ContentsView {
        match *self {
            FileContents::Text(s) => ContentsView::Text(s@),
            FileContents::Binary(b) => ContentsView::Binary(b@),
        }
    }
}

/// What was read of a file, if it could be read.
pub open spec fn contents_read(r: Result<FileContents, String>) -> Option<ContentsView> {
    match r {
        Ok(contents) => Some(contents@),
        Err(_) => None,
    }
}

/// A cached file: its text, if it is text, and the lines kept with it.
pub struct CachedFile {
    pub text: Option<String>,
    pub lines: Vec<String>,
}

/// The positions at which the lines of a text start, from the first on.
pub open spec fn line_starts(text: Seq<char>) -> Seq<int>
    decreases text.len(),
{
    if text.len() == 0 {
        seq![0]
    } else if text.last() == '\n' {
        line_starts(text.drop_last()).push(text.len() as int)
    } else {
        line_starts(text.drop_last())
    }
}

/// The positions between which the lines of a text lie: where each line starts,
/// and the end of the text.
pub open spec fn line_bounds(text: Seq<char>) -> Seq<int> {
    line_starts(text).push(text.len() as int)
}

/// The position at which lines in front of line `end` end: where it starts, or the
/// end of the text if there are fewer lines.
pub open spec fn line_stop(text: Seq<char>, end: nat) -> int {
    if end < line_bounds(text).len() {
        line_bounds(text)[end as int]
    } else {
        text.len() as int
    }
}

/// The part of a text from the start of line `start` up to the start of line
/// `end`, or to the end of the text if there are fewer lines. `None` if line
/// `start` lies behind that.
pub open spec fn text_between(text: Seq<char>, start: nat, end: nat) -> Option<Seq<char>> {
    let bounds = line_bounds(text);
    let stop = line_stop(text, end);
    if start < bounds.len() && bounds[start as int] <= stop {
        Some(text.subrange(bounds[start as int], stop))
    } else {
        None
    }
}

/// The positions at which lines start are in order, from the start of the text on
/// and within it.
pub proof fn lemma_line_starts(text: Seq<char>)
    ensures
        line_starts(text).len() > 0,
        line_starts(text)[0] == 0,
        forall|i: int| 0 <= i < line_starts(text).len() ==> 0 <= #[trigger] line_starts(text)[i] <= text.len(),
        forall|i: int, j: int|
            0 <= i <= j < line_starts(text).len() ==> #[trigger] line_starts(text)[i]
                <= #[trigger] line_starts(text)[j],
    decreases text.len(),
{
    if text.len() > 0 {
        lemma_line_starts(text.drop_last());
    }
}

/// All lines of a text together are the text.
pub proof fn law_all_lines_are_the_text(text: Seq<char>, end: nat)
    requires
        end >= line_starts(text).len(),
    ensures
        text_between(text, 0, end) == Some(text),
{
    lemma_line_starts(text);
    assert(text.subrange(0, text.len() as int) == text);
}

/// Lines that follow each other join up.
pub proof fn law_adjacent_lines_join(text: Seq<char>, a: nat, b: nat, c: nat)
    requires
        text_between(text, a, b) is Some,
        text_between(text, b, c) is Some,
    ensures
        text_between(text, a, c) == Some(
            text_between(text, a, b)->Some_0 + text_between(text, b, c)->Some_0,
        ),
{
    let bounds = line_bounds(text);
    let stop = line_stop(text, c);
    lemma_line_starts(text);
    assert(text.subrange(bounds[a as int], stop) == text.subrange(
        bounds[a as int],
        bounds[b as int],
    ) + text.subrange(bounds[b as int], stop));
}

/// There is something between two lines in order if the first one exists.
pub proof fn law_lines_in_order_are_there(text: Seq<char>, start: nat, end: nat)
    requires
        start <= end,
        start <= line_starts(text).len(),
    ensures
        text_between(text, start, end) is Some,
{
    lemma_line_starts(text);
}

/// How many newlines a text holds.
pub open spec fn newlines(text: Seq<char>) -> nat {
    text.to_multiset().count('\n')
}

/// Whether a text is made up of whole lines.
pub open spec fn is_whole_lines(text: Seq<char>) -> bool {
    text.len() > 0 ==> text.last() == '\n'
}

proof fn lemma_newlines_of_push(text: Seq<char>, c: char)
    ensures
        newlines(text.push(c)) == newlines(text) + if c == '\n' {
            1nat
        } else {
            0nat
        },
{
    vstd::seq_lib::to_multiset_build(text, c);
}

/// There is one line start more than there are newlines; more text leaves the
/// starts as they are; and behind whole lines the next one starts.
proof fn lemma_starts_behind(a: Seq<char>, b: Seq<char>)
    ensures
        line_starts(a).len() == newlines(a) + 1,
        line_starts(a).len() <= line_starts(a + b).len(),
        line_starts(a + b).take(line_starts(a).len() as int) == line_starts(a),
        is_whole_lines(a) ==> line_starts(a).last() == a.len(),
    decreases a.len() + b.len(),
{
    broadcast use vstd::seq_lib::group_to_multiset_ensures;

    if b.len() > 0 {
        lemma_starts_behind(a, b.drop_last());
        assert((a + b).drop_last() == a + b.drop_last());
    } else {
        assert(a + b == a);
        if a.len() > 0 {
            lemma_starts_behind(a.drop_last(), Seq::empty());
            assert(a.drop_last().push(a.last()) == a);
            lemma_newlines_of_push(a.drop_last(), a.last());
        } else {
            assert(newlines(a) == 0);
        }
    }
}

proof fn lemma_newlines_add_up(a: Seq<char>, b: Seq<char>)
    ensures
        newlines(a + b) == newlines(a) + newlines(b),
{
    vstd::seq_lib::lemma_multiset_commutative(a, b);
}

/// The lines from one row to another are the text that has as many newlines before
/// it as the first row, and as many in it as there are rows: whole lines, or the
/// rest of the text.
pub proof fn law_rows_count_newlines(before: Seq<char>, part: Seq<char>, behind: Seq<char>)
    requires
        is_whole_lines(before),
        is_whole_lines(part),
    ensures
        text_between(before + part + behind, newlines(before), newlines(before) + newlines(part))
            == Some(part),
        forall|end: nat|
            end > newlines(before + part + behind) ==> #[trigger] text_between(
                before + part + behind,
                newlines(before),
                end,
            ) == Some(part + behind),
        forall|start: nat, end: nat|
            start > newlines(before + part + behind) + 1 ==> #[trigger] text_between(
                before + part + behind,
                start,
                end,
            ) is None,
{
    let text = before + part + behind;
    let n = newlines(before) as int;
    let m = n + newlines(part) as int;
    lemma_starts_behind(before, part + behind);
    assert(before + (part + behind) == text);
    lemma_starts_behind(before + part, behind);
    lemma_starts_behind(text, Seq::empty());
    lemma_newlines_add_up(before, part);
    if part.len() > 0 {
        assert((before + part).last() == part.last());
    } else {
        assert(before + part == before);
    }
    lemma_line_starts(text);
    let starts = line_starts(text);
    assert(line_starts(before)[n] == starts.take(line_starts(before).len() as int)[n]);
    assert(line_starts(before + part)[m] == starts.take(line_starts(before + part).len() as int)[m]);
    assert(text.subrange(before.len() as int, (before.len() + part.len()) as int) == part);
    assert(text.subrange(before.len() as int, text.len() as int) == part + behind);
}

/// Whether a position in a text fits in 32 bits when counted in bytes.
pub open spec fn position_fits(text: Seq<char>, i: int) -> bool {
    encode_utf8(text.take(i)).len() <= u32::MAX
}

/// Whether the positions between which the lines `start..end` of a text lie fit in
/// 32 bits, if there is a line `start` at all.
pub open spec fn lines_fit(text: Seq<char>, start: nat, end: nat) -> bool {
    start < line_bounds(text).len() ==> position_fits(text, line_bounds(text)[start as int])
        && position_fits(text, line_stop(text, end))
}

proof fn lemma_prefix_is_no_longer(text: Seq<char>, i: int)
    requires
        0 <= i <= text.len(),
    ensures
        encode_utf8(text.take(i)).len() <= encode_utf8(text).len(),
    decreases i,
{
    if i > 0 {
        lemma_prefix_is_no_longer(text.drop_first(), i - 1);
        assert(text.take(i).drop_first() == text.drop_first().take(i - 1));
    }
}

/// The lines of a text all lie at positions that fit if the text itself is short
/// enough.
pub proof fn law_lines_of_short_text_fit(text: Seq<char>, start: nat, end: nat)
    requires
        encode_utf8(text).len() <= u32::MAX,
    ensures
        lines_fit(text, start, end),
{
    lemma_line_starts(text);
    if start < line_bounds(text).len() {
        lemma_prefix_is_no_longer(text, line_bounds(text)[start as int]);
        lemma_prefix_is_no_longer(text, line_stop(text, end));
    }
}

/// The positions between which the lines of a text lie.
fn line_bounds_of(chars: &Vec<char>) -> (r: Vec<usize>)
    ensures
        r.len() == line_bounds(chars@).len(),
        forall|i: int| 0 <= i < r.len() ==> r[i] == #[trigger] line_bounds(chars@)[i],
{
    let mut bounds: Vec<usize> = Vec::new();
    bounds.push(0);
    assert(chars@.take(0) == Seq::<char>::empty());
    let mut i: usize = 0;
    while i < chars.len()
        invariant
            i <= chars.len(),
            bounds.len() == line_starts(chars@.take(i as int)).len(),
            forall|j: int|
                0 <= j < bounds.len() ==> bounds[j] == #[trigger] line_starts(
                    chars@.take(i as int),
                )[j],
        decreases chars.len() - i,
    {
        assert(chars@.take(i + 1).drop_last() == chars@.take(i as int));
        i += 1;
        if chars[i - 1] == '\n' {
            bounds.push(i);
        }
    }
    assert(chars@.take(i as int) == chars@);
    bounds.push(chars.len());
    bounds
}

/// Whether a position in a text fits in 32 bits when counted in bytes.
fn position_fits_in(chars: &Vec<char>, i: usize) -> (r: bool)
    requires
        i <= chars.len(),
    ensures
        r == position_fits(chars@, i as int),
{
    let front = text_of(chars, 0, i);
    assert(chars@.subrange(0, i as int) == chars@.take(i as int));
    front.as_str().as_bytes().len() <= u32::MAX as usize
}

/// Whether the positions between which the lines `start..end` of a text lie fit in
/// 32 bits.
pub fn lines_fit_in(text: &str, start: u32, end: u32) -> (r: bool)
    ensures
        r == lines_fit(text@, start as nat, end as nat),
{
    if text.as_bytes().len() <= u32::MAX as usize {
        proof {
            law_lines_of_short_text_fit(text@, start as nat, end as nat);
        }
        return true;
    }
    let chars = chars_of(text);
    let bounds = line_bounds_of(&chars);
    proof {
        lemma_line_starts(text@);
    }
    if start as usize >= bounds.len() {
        return true;
    }
    let stop: usize = if (end as usize) < bounds.len() {
        bounds[end as usize]
    } else {
        chars.len()
    };
    assert(bounds[start as int] == line_bounds(text@)[start as int]);
    assert(stop == line_stop(text@, end as nat));
    position_fits_in(&chars, bounds[start as usize]) && position_fits_in(&chars, stop)
}

/// `Vfs::new`: a file system without files.
#[verifier::external_body]
pub(crate) fn vfs_new() -> (r: rls_vfs::Vfs<VfsUserData>)
    ensures
        vfs_files(r) == Files::empty(),
        vfs_shown(r) == Shown::empty(),
{
    rls_vfs::Vfs::new()
}

/// `Vfs::clear`: forgets every file.
#[verifier::external_body]
pub(crate) fn vfs_clear(vfs: &mut rls_vfs::Vfs<VfsUserData>)
    ensures
        vfs_files(*final(vfs)) == Files::empty(),
        vfs_shown(*final(vfs)) == Shown::empty(),
{
    vfs.clear()
}

/// `Vfs::load_file`: gives the contents of a file. A cached file is given as it
/// is held, with nothing changed. Any other file is read from disk; it is then
/// cached, without user data, or, if it cannot be read, nothing changes and the
/// error is the one for input and output. What stands on disk is not stated, only
/// that the result is what the disk gave.
#[verifier::external_body]
pub(crate) fn vfs_load_file(vfs: &mut rls_vfs::Vfs<VfsUserData>, path: &str) -> (r: Result<
    FileContents,
    String,
>)
    ensures
        vfs_files(*old(vfs)).contains_key(path_components(path@)) ==> r is Ok && vfs_files(
            *final(vfs),
        ) == vfs_files(*old(vfs)),
        r matches Ok(contents) ==> vfs_files(*final(vfs)) == vfs_files(*old(vfs)).insert(
            path_components(path@),
            contents@,
        ),
        r matches Err(e) ==> e@ == "io::Error reading or writing path"@ && vfs_files(*final(vfs))
            == vfs_files(*old(vfs)),
        !vfs_files(*old(vfs)).contains_key(path_components(path@)) ==> disk_gives(
            path@,
            contents_read(r),
        ),
        vfs_shown(*final(vfs)) == vfs_shown(*old(vfs)),
        vfs_files(*old(vfs)).contains_key(path_components(path@)) || !vfs_shown(
            *final(vfs),
        ).contains_key(path_components(path@)),
{
    match vfs.load_file(std::path::Path::new(path)) {
        Ok(rls_vfs::FileContents::Text(s)) => Ok(FileContents::Text(s)),
        Ok(rls_vfs::FileContents::Binary(b)) => Ok(FileContents::Binary(b)),
        Err(e) => Err(e.into()),
    }
}

/// `Vfs::load_lines` on a cached file: the text from line `line_start` up to
/// line `line_end`, or the error for a location outside the file, or for a file
/// that is no text. The positions are kept in 32 bits, so lines that lie further
/// behind in a text are left out.
#[verifier::external_body]
pub(crate) fn vfs_load_lines(
    vfs: &rls_vfs::Vfs<VfsUserData>,
    path: &str,
    line_start: u32,
    line_end: u32,
) -> (r: Result<String, String>)
    requires
        vfs_files(*vfs).contains_key(path_components(path@)),
        vfs_files(*vfs)[path_components(path@)] matches ContentsView::Text(text) ==> lines_fit(
            text,
            line_start as nat,
            line_end as nat,
        ),
    ensures
        match vfs_files(*vfs)[path_components(path@)] {
            ContentsView::Binary(_) => r matches Err(e) && e@
                == "file is not the correct kind for the operation (e.g., text op on binary file)"@,
            ContentsView::Text(text) => match text_between(text, line_start as nat, line_end as nat) {
                Some(part) => r matches Ok(s) && s@ == part,
                None => r matches Err(e) && e@
                    == "client specified location not existing within a file"@,
            },
        },
{
    vfs.load_lines(
        std::path::Path::new(path),
        rls_span::Row::new_zero_indexed(line_start),
        rls_span::Row::new_zero_indexed(line_end),
    ).map_err(|e| e.into())
}

/// `Vfs::ensure_user_data`: gives a cached file fresh user data if it has none.
/// Nothing else changes. A file that is not cached is an error.
#[verifier::external_body]
pub(crate) fn vfs_ensure_user_data(vfs: &mut rls_vfs::Vfs<VfsUserData>, path: &str) -> (r: Result<
    (),
    String,
>)
    ensures
        vfs_files(*final(vfs)) == vfs_files(*old(vfs)),
        r is Ok <==> vfs_files(*old(vfs)).contains_key(path_components(path@)),
        r is Ok && !vfs_shown(*old(vfs)).contains_key(path_components(path@)) ==> vfs_shown(
            *final(vfs),
        ) == vfs_shown(*old(vfs)).insert(path_components(path@), Seq::empty()),
        r is Err || vfs_shown(*old(vfs)).contains_key(path_components(path@)) ==> vfs_shown(
            *final(vfs),
        ) == vfs_shown(*old(vfs)),
        r matches Err(e) ==> e@ == "requested file was not cached in the VFS"@,
{
    vfs.ensure_user_data(std::path::Path::new(path), |_| Ok(VfsUserData::new())).map_err(|e| e.into())
}

/// `Vfs::with_user_data` on a cached file with user data, called to read: the
/// text of the file, if it is text, and its lines.
#[verifier::external_body]
pub(crate) fn vfs_with_user_data(vfs: &rls_vfs::Vfs<VfsUserData>, path: &str) -> (r: Result<
    CachedFile,
    String,
>)
    requires
        vfs_files(*vfs).contains_key(path_components(path@)),
        vfs_shown(*vfs).contains_key(path_components(path@)),
    ensures
        r is Ok,
        r->Ok_0.text.deep_view() == vfs_files(*vfs)[path_components(path@)].text(),
        r->Ok_0.lines.deep_view() == vfs_shown(*vfs)[path_components(path@)],
{
    vfs.with_user_data(
        std::path::Path::new(path),
        |u| u.map(
            |(text, data)| CachedFile {
                text: text.map(|t| t.to_owned()),
                lines: data.highlighted_lines.clone(),
            },
        ),
    ).map_err(|e| e.into())
}

/// `Vfs::set_user_data` with some data: replaces the user data of a cached file.
/// Nothing else changes. A file that is not cached is an error.
#[verifier::external_body]
pub(crate) fn vfs_set_user_data(
    vfs: &mut rls_vfs::Vfs<VfsUserData>,
    path: &str,
    data: VfsUserData,
) -> (r: Result<(), String>)
    ensures
        vfs_files(*final(vfs)) == vfs_files(*old(vfs)),
        r is Ok <==> vfs_files(*old(vfs)).contains_key(path_components(path@)),
        r is Ok ==> vfs_shown(*final(vfs)) == vfs_shown(*old(vfs)).insert(
            path_components(path@),
            data.highlighted_lines.deep_view(),
        ),
        r matches Err(e) ==> e@ == "requested file was not cached in the VFS"@ && vfs_shown(
            *final(vfs),
        ) == vfs_shown(*old(vfs)),
{
    vfs.set_user_data(std::path::Path::new(path), Some(data)).map_err(|e| e.into())
}

/// The message of `rls_vfs::Error::BadFileKind`, by its conversion to `String`.
#[verifier::external_body]
pub(crate) fn vfs_bad_file_kind() -> (r: String)
    ensures
        r@ == "file is not the correct kind for the operation (e.g., text op on binary file)"@,
{
    rls_vfs::Error::BadFileKind.into()
}

/// Lines that fit lie at positions of which each is within 32 bits, in bytes.
pub proof fn law_lines_that_fit_are_within_reach(text: Seq<char>, start: nat, end: nat)
    requires
        lines_fit(text, start, end),
        text_between(text, start, end) is Some,
    ensures
        exists|before: Seq<char>, behind: Seq<char>|
            {
                &&& text == #[trigger] (before + text_between(text, start, end)->Some_0 + behind)
                &&& encode_utf8(before).len() <= u32::MAX
                &&& encode_utf8(before + text_between(text, start, end)->Some_0).len() <= u32::MAX
            },
{
    lemma_line_starts(text);
    let from = line_bounds(text)[start as int];
    let to = line_stop(text, end);
    let part = text_between(text, start, end)->Some_0;
    let before = text.take(from);
    let behind = text.skip(to);
    assert(text == before + part + behind);
    assert(before + part == text.take(to));
}

/// What a file holds is its text or its bytes.
pub proof fn law_contents_are_text_or_bytes(contents: FileContents)
    ensures
        contents matches FileContents::Text(s) ==> contents@ == ContentsView::Text(s@)
            && contents@.text() == Some(s@) && contents@.bytes() == encode_utf8(s@),
        contents matches FileContents::Binary(b) ==> contents@ == ContentsView::Binary(b@)
            && contents@.text() is None && contents@.bytes() == b@,
{
}

} // verus!
