//! A cache of files and of the lines shown for them.

use vstd::prelude::*;

use crate::file_controller::vfs::{
    lines_fit_in, vfs_bad_file_kind, vfs_clear, vfs_ensure_user_data, vfs_load_file, vfs_load_lines,
    vfs_new, vfs_set_user_data, vfs_with_user_data, FileContents,
};
use crate::file_controller::vfs::{
    disk_gives, lines_fit, text_between, vfs_files, vfs_shown, ContentsView, Files, Shown,
};
use crate::path::extension_of;
use crate::path::{path_components, path_extension};
use crate::text::{
    ends_line, join, law_split_then_join, lemma_split_adds_nothing, lemma_split_not_empty, lines,
    replace, split, without_return,
};
use crate::text::{ends_with_newline, lines_of, replace_text, same_text, text_bytes};

verus! {

/// What the cache keeps with a file.
pub struct VfsUserData {
    pub highlighted_lines: Vec<String>,
}

impl VfsUserData {
    /// User data for a file of which no lines have been shown yet.
    pub fn new() -> (r: VfsUserData)
        ensures
            r.highlighted_lines@ == Seq::<String>::empty(),
    {
        VfsUserData { highlighted_lines: Vec::new() }
    }
}

/// Files, read once and kept, with the lines shown for them.
pub struct Cache {
    pub files: rls_vfs::Vfs<VfsUserData>,
}

/// What a cache holds: each file, and the lines to show for it once they have
/// been asked for. Files go by the components of their path.
#[verifier::ext_equal]
pub struct CacheView {
    pub files: Files,
    pub shown: Shown,
}

impl View for Cache {
    type V = CacheView;

    open spec fn view(&self) -> CacheView {
        CacheView { files: vfs_files(self.files), shown: vfs_shown(self.files) }
    }
}

impl CacheView {
    /// A cache without files.
    pub open spec fn empty() -> CacheView {
        CacheView { files: Map::empty(), shown: Map::empty() }
    }

    /// Lines are kept for cached files alone.
    pub open spec fn wf(self) -> bool {
        self.shown.dom().subset_of(self.files.dom())
    }

    /// Whether lines to show are at hand for a file.
    pub open spec fn is_shown(self, path: Seq<char>) -> bool {
        let file = path_components(path);
        self.shown.contains_key(file) && self.shown[file].len() > 0
    }
}

/// Whether `after` holds the files of `before` and the file at `path`, which has
/// been read from disk if it was not held.
pub open spec fn file_loaded(before: CacheView, after: CacheView, path: Seq<char>) -> bool {
    let file = path_components(path);
    &&& after.files.contains_key(file)
    &&& after.files == before.files.insert(file, after.files[file])
    &&& before.files.contains_key(file) ==> after.files == before.files
    &&& !before.files.contains_key(file) ==> disk_gives(path, Some(after.files[file]))
}

/// Whether a file that is not held cannot be read, so that nothing changes.
pub open spec fn file_missing(before: CacheView, after: CacheView, path: Seq<char>) -> bool {
    &&& !before.files.contains_key(path_components(path))
    &&& disk_gives(path, None)
    &&& after == before
}

/// The message for a file that cannot be read.
pub open spec fn unreadable() -> Seq<char> {
    "io::Error reading or writing path"@
}

/// The message for a file that is not text.
pub open spec fn not_text() -> Seq<char> {
    "file is not the correct kind for the operation (e.g., text op on binary file)"@
}

/// The message for lines that a file does not have.
pub open spec fn bad_location() -> Seq<char> {
    "client specified location not existing within a file"@
}

/// The outcome of asking for the lines `start..end` of a file, counted from
/// zero.
pub open spec fn lines_read(
    before: CacheView,
    after: CacheView,
    path: Seq<char>,
    start: nat,
    end: nat,
    r: Result<Seq<char>, Seq<char>>,
) -> bool {
    &&& after.shown == before.shown
    &&& {
        ||| {
            &&& file_missing(before, after, path)
            &&& r == Err::<Seq<char>, Seq<char>>(unreadable())
        }
        ||| {
            &&& file_loaded(before, after, path)
            &&& match after.files[path_components(path)] {
                ContentsView::Binary(_) => r == Err::<Seq<char>, Seq<char>>(not_text()),
                ContentsView::Text(text) => if !lines_fit(text, start, end) {
                    r == Err::<Seq<char>, Seq<char>>(bad_location())
                } else {
                    match text_between(text, start, end) {
                        Some(part) => r == Ok::<Seq<char>, Seq<char>>(part),
                        None => r == Err::<Seq<char>, Seq<char>>(bad_location()),
                    }
                },
            }
        }
    }
}

/// The outcome of asking for a whole file as text.
pub open spec fn text_read(
    before: CacheView,
    after: CacheView,
    path: Seq<char>,
    r: Result<Seq<char>, Seq<char>>,
) -> bool {
    &&& after.shown == before.shown
    &&& {
        ||| {
            &&& file_missing(before, after, path)
            &&& r == Err::<Seq<char>, Seq<char>>(unreadable())
        }
        ||| {
            &&& file_loaded(before, after, path)
            &&& match after.files[path_components(path)] {
                ContentsView::Binary(_) => r == Err::<Seq<char>, Seq<char>>(not_text()),
                ContentsView::Text(text) => r == Ok::<Seq<char>, Seq<char>>(text),
            }
        }
    }
}

/// The outcome of asking for the bytes of a file.
pub open spec fn bytes_read(
    before: CacheView,
    after: CacheView,
    path: Seq<char>,
    r: Result<Seq<u8>, Seq<char>>,
) -> bool {
    &&& after.shown == before.shown
    &&& {
        ||| {
            &&& file_missing(before, after, path)
            &&& r == Err::<Seq<u8>, Seq<char>>(unreadable())
        }
        ||| {
            &&& file_loaded(before, after, path)
            &&& r == Ok::<Seq<u8>, Seq<char>>(after.files[path_components(path)].bytes())
        }
    }
}

/// Whether a path names a Rust source file, which is highlighted when shown.
pub open spec fn is_rust(path: Seq<char>) -> bool {
    path_extension(path) == Some("rs"@)
}

/// The empty line behind the newline that ends a text.
pub open spec fn last_line(text: Seq<char>) -> Seq<Seq<char>> {
    if ends_line(text) {
        seq![Seq::<char>::empty()]
    } else {
        Seq::empty()
    }
}

/// The lines of a text as they are.
pub open spec fn plain_lines(text: Seq<char>) -> Seq<Seq<char>> {
    lines(text) + last_line(text)
}

/// The lines of a highlighted text, in which `<br>` stands for a newline.
pub open spec fn marked_lines(text: Seq<char>, highlighted: Seq<char>) -> Seq<Seq<char>> {
    lines(highlighted).map_values(|line: Seq<char>| replace(line, "<br>"@, "\n"@)) + last_line(text)
}

/// The lines to show for a Rust file, given what the highlighter made of it: the
/// plain lines where it made nothing.
pub open spec fn rust_lines(text: Seq<char>, highlighted: Seq<char>) -> Seq<Seq<char>> {
    if lines(highlighted).len() > 0 {
        marked_lines(text, highlighted)
    } else {
        plain_lines(text)
    }
}

/// Whether a highlighter that is called on a path and a text may give
/// `highlighted`.
pub open spec fn highlights<F: Fn(String, String) -> String>(
    highlighter: F,
    path: Seq<char>,
    text: Seq<char>,
    highlighted: Seq<char>,
) -> bool {
    exists|p: String, t: String, h: String| #[trigger]
        call_ensures(highlighter, (p, t), h) && p@ == path && t@ == text && h@ == highlighted
}

/// Whether a highlighter may be called on every path and text.
pub open spec fn is_total<F: Fn(String, String) -> String>(highlighter: F) -> bool {
    forall|p: String, t: String| call_requires(highlighter, (p, t))
}

/// Whether `shown` is what to show afresh for a text.
pub open spec fn fresh_lines<F: Fn(String, String) -> String>(
    highlighter: F,
    path: Seq<char>,
    text: Seq<char>,
    shown: Seq<Seq<char>>,
) -> bool {
    if is_rust(path) {
        exists|h: Seq<char>| #[trigger] highlights(highlighter, path, text, h) && shown == rust_lines(text, h)
    } else {
        shown == plain_lines(text)
    }
}

/// The outcome of asking for the lines to show for a file.
pub open spec fn file_shown<F: Fn(String, String) -> String>(
    highlighter: F,
    before: CacheView,
    after: CacheView,
    path: Seq<char>,
    r: Result<Seq<Seq<char>>, Seq<char>>,
) -> bool {
    let file = path_components(path);
    ||| {
        &&& file_missing(before, after, path)
        &&& r == Err::<Seq<Seq<char>>, Seq<char>>(unreadable())
    }
    ||| {
        &&& file_loaded(before, after, path)
        &&& match after.files[file] {
            ContentsView::Binary(_) => {
                &&& r == Err::<Seq<Seq<char>>, Seq<char>>(not_text())
                &&& after.shown == before.shown.insert(
                    file,
                    if before.shown.contains_key(file) {
                        before.shown[file]
                    } else {
                        Seq::empty()
                    },
                )
            },
            ContentsView::Text(text) => {
                &&& r is Ok
                &&& after.shown == before.shown.insert(file, r->Ok_0)
                &&& if before.is_shown(path) {
                    r->Ok_0 == before.shown[file]
                } else {
                    fresh_lines(highlighter, path, text, r->Ok_0)
                }
            },
        }
    }
}

/// The views of the files in a result.
pub open spec fn lines_view(r: Result<Vec<String>, String>) -> Result<Seq<Seq<char>>, Seq<char>> {
    match r {
        Ok(lines) => Ok(lines.deep_view()),
        Err(e) => Err(e@),
    }
}

/// The view of the text in a result.
pub open spec fn text_view(r: Result<String, String>) -> Result<Seq<char>, Seq<char>> {
    match r {
        Ok(s) => Ok(s@),
        Err(e) => Err(e@),
    }
}

/// The view of the bytes in a result.
pub open spec fn bytes_view(r: Result<Vec<u8>, String>) -> Result<Seq<u8>, Seq<char>> {
    match r {
        Ok(b) => Ok(b@),
        Err(e) => Err(e@),
    }
}

/// The lines of a text, with an empty one behind a final newline.
pub fn plain_lines_of(text: &str) -> (r: Vec<String>)
    ensures
        r.deep_view() == plain_lines(text@),
{
    let mut result = lines_of(text);
    if ends_with_newline(text) {
        let ghost before = result.deep_view();
        result.push(String::new());
        assert(result.deep_view() == before + last_line(text@));
    } else {
        assert(result.deep_view() == result.deep_view() + last_line(text@));
    }
    result
}

/// The lines of a highlighted text, with an empty one if the text itself ends
/// with a newline.
pub fn marked_lines_of(text: &str, highlighted: &str) -> (r: Vec<String>)
    ensures
        r.deep_view() == marked_lines(text@, highlighted@),
{
    let raw = lines_of(highlighted);
    let ghost all = lines(highlighted@);
    let ghost mark = |line: Seq<char>| replace(line, "<br>"@, "\n"@);
    let mut result: Vec<String> = Vec::new();
    proof {
        reveal_strlit("<br>");
        assert(result.deep_view() == all.take(0).map_values(mark));
    }
    let mut i: usize = 0;
    while i < raw.len()
        invariant
            i <= raw.len(),
            raw.deep_view() == all,
            mark == (|line: Seq<char>| replace(line, "<br>"@, "\n"@)),
            "<br>"@.len() == 4,
            result.deep_view() == all.take(i as int).map_values(mark),
        decreases raw.len() - i,
    {
        let line = replace_text(raw[i].as_str(), "<br>", "\n");
        let ghost before = result.deep_view();
        result.push(line);
        assert(result.deep_view() == before.push(line@));
        assert(line@ == mark(all[i as int]));
        assert(all.take(i + 1) == all.take(i as int).push(all[i as int]));
        assert(result.deep_view() == all.take(i + 1).map_values(mark));
        i += 1;
    }
    assert(all.take(i as int) == all);
    let ghost before = result.deep_view();
    if ends_with_newline(text) {
        result.push(String::new());
        assert(result.deep_view() == before + last_line(text@));
    } else {
        assert(result.deep_view() == before + last_line(text@));
    }
    result
}

/// The lines to show for a Rust file, given what the highlighter made of it.
pub fn rust_lines_of(text: &str, highlighted: &str) -> (r: Vec<String>)
    ensures
        r.deep_view() == rust_lines(text@, highlighted@),
{
    let raw = lines_of(highlighted);
    assert(raw.len() == raw.deep_view().len());
    if raw.len() > 0 {
        marked_lines_of(text, highlighted)
    } else {
        plain_lines_of(text)
    }
}

/// The lines to show afresh for a file.
pub fn lines_to_show<F: Fn(String, String) -> String>(path: &str, text: &str, highlighter: &F) -> (r:
    Vec<String>)
    requires
        is_total(*highlighter),
    ensures
        fresh_lines(*highlighter, path@, text@, r.deep_view()),
{
    let rust = match extension_of(path) {
        Some(ext) => same_text(ext.as_str(), "rs"),
        None => false,
    };
    assert(rust == is_rust(path@));
    if rust {
        let highlighted = highlighter(path.to_owned(), text.to_owned());
        assert(highlights(*highlighter, path@, text@, highlighted@));
        rust_lines_of(text, highlighted.as_str())
    } else {
        plain_lines_of(text)
    }
}

impl Cache {
    /// A cache without files.
    pub fn new() -> (r: Cache)
        ensures
            r@ == CacheView::empty(),
            r@.wf(),
    {
        Cache { files: vfs_new() }
    }

    /// Forgets every file.
    pub fn clear(&mut self)
        ensures
            final(self)@ == CacheView::empty(),
    {
        vfs_clear(&mut self.files);
    }

    /// The text of the lines `line_start..line_end` of a file, counted from zero.
    /// Positions are kept in 32 bits, so lines that lie further behind cannot be
    /// located.
    pub fn get_lines(&mut self, path: &str, line_start: u32, line_end: u32) -> (r: Result<
        String,
        String,
    >)
        ensures
            lines_read(
                old(self)@,
                final(self)@,
                path@,
                line_start as nat,
                line_end as nat,
                text_view(r),
            ),
    {
        let contents = match vfs_load_file(&mut self.files, path) {
            Ok(contents) => contents,
            Err(e) => {
                return Err(e);
            },
        };
        if let FileContents::Text(text) = &contents {
            if !lines_fit_in(text.as_str(), line_start, line_end) {
                return Err("client specified location not existing within a file".to_owned());
            }
        }
        vfs_load_lines(&self.files, path, line_start, line_end)
    }

    /// The text of a file.
    pub fn get_text(&mut self, path: &str) -> (r: Result<String, String>)
        ensures
            text_read(old(self)@, final(self)@, path@, text_view(r)),
    {
        match vfs_load_file(&mut self.files, path) {
            Ok(FileContents::Text(text)) => Ok(text),
            Ok(FileContents::Binary(_)) => Err(vfs_bad_file_kind()),
            Err(e) => Err(e),
        }
    }

    /// The bytes of a file.
    pub fn get_bytes(&mut self, path: &str) -> (r: Result<Vec<u8>, String>)
        ensures
            bytes_read(old(self)@, final(self)@, path@, bytes_view(r)),
    {
        match vfs_load_file(&mut self.files, path) {
            Ok(FileContents::Text(text)) => Ok(text_bytes(text.as_str())),
            Ok(FileContents::Binary(bytes)) => Ok(bytes),
            Err(e) => Err(e),
        }
    }

    /// The lines to show for a file. They are kept, and given again as long as
    /// the file is cached; a file without lines is looked at anew each time.
    pub fn get_highlighted<F: Fn(String, String) -> String>(&mut self, path: &str, highlighter: &F) -> (r:
        Result<Vec<String>, String>)
        requires
            is_total(*highlighter),
        ensures
            file_shown(*highlighter, old(self)@, final(self)@, path@, lines_view(r)),
    {
        let ghost file = path_components(path@);
        let ghost before = self@;
        match vfs_load_file(&mut self.files, path) {
            Ok(_) => {},
            Err(e) => {
                return Err(e);
            },
        }
        match vfs_ensure_user_data(&mut self.files, path) {
            Ok(()) => {},
            Err(e) => {
                return Err(e);
            },
        }
        let cached = match vfs_with_user_data(&self.files, path) {
            Ok(cached) => cached,
            Err(e) => {
                return Err(e);
            },
        };
        let text = match cached.text {
            Some(text) => text,
            None => {
                assert(self@.shown == before.shown.insert(file, self@.shown[file]));
                return Err(vfs_bad_file_kind());
            },
        };
        assert(cached.lines.len() == cached.lines.deep_view().len());
        if cached.lines.len() > 0 {
            assert(before.is_shown(path@));
            assert(self@.shown == before.shown.insert(file, cached.lines.deep_view()));
            return Ok(cached.lines);
        }
        let lines = lines_to_show(path, text.as_str(), highlighter);
        let data = VfsUserData { highlighted_lines: lines.clone() };
        assert(data.highlighted_lines.deep_view() == lines.deep_view());
        match vfs_set_user_data(&mut self.files, path, data) {
            Ok(()) => {},
            Err(e) => {
                return Err(e);
            },
        }
        assert(self@.shown == before.shown.insert(file, lines.deep_view()));
        Ok(lines)
    }
}

// --------------------------------------------------------------------------
// What holds of a cache over several calls
// --------------------------------------------------------------------------

/// The lines shown for a file that is not highlighted, joined by newlines, are the
/// file, if it holds no carriage return.
pub proof fn law_plain_lines_are_the_text(text: Seq<char>)
    requires
        !text.contains('\r'),
    ensures
        join(plain_lines(text), '\n') == text,
{
    let pieces = split(text, '\n');
    lemma_split_not_empty(text, '\n');
    lemma_split_adds_nothing(text, '\n', '\r');
    law_split_then_join(text, '\n');
    let ended = pieces.drop_last().map_values(|line: Seq<char>| without_return(line));
    assert(ended == pieces.drop_last()) by {
        assert forall|i: int| 0 <= i < ended.len() implies ended[i] == pieces[i] by {
            let piece = pieces[i];
            if piece.len() > 0 {
                assert(piece.contains(piece[piece.len() - 1]));
            }
        }
    }
    if text.len() == 0 {
        assert(plain_lines(text) == Seq::<Seq<char>>::empty());
    } else if ends_line(text) {
        assert(plain_lines(text) == pieces);
    } else {
        lemma_split_not_empty(text.drop_last(), '\n');
        assert(pieces.last().len() > 0);
        assert(plain_lines(text) == pieces);
    }
}

/// A highlighter that makes nothing of a text leaves it as it is.
pub proof fn law_failed_highlighting_leaves_the_text(text: Seq<char>)
    ensures
        rust_lines(text, Seq::empty()) == plain_lines(text),
{
    let nothing = Seq::<char>::empty();
    assert(split(nothing, '\n') == seq![Seq::<char>::empty()]);
    assert(lines(nothing).len() == 0);
}

/// Something is shown for every file that is not empty.
pub proof fn law_text_is_shown<F: Fn(String, String) -> String>(
    highlighter: F,
    path: Seq<char>,
    text: Seq<char>,
    shown: Seq<Seq<char>>,
)
    requires
        text.len() > 0,
        fresh_lines(highlighter, path, text, shown),
    ensures
        shown.len() > 0,
{
    if !ends_line(text) {
        lemma_split_not_empty(text.drop_last(), '\n');
        assert(split(text, '\n').last().len() > 0);
    }
    assert(plain_lines(text).len() > 0);
}

/// An emptied cache shows a file afresh, with what the highlighter makes of it now.
pub proof fn law_emptied_cache_shows_afresh<F: Fn(String, String) -> String>(
    highlighter: F,
    after: CacheView,
    path: Seq<char>,
    lines: Seq<Seq<char>>,
)
    requires
        file_shown(
            highlighter,
            CacheView::empty(),
            after,
            path,
            Ok::<Seq<Seq<char>>, Seq<char>>(lines),
        ),
    ensures
        after.files[path_components(path)] matches ContentsView::Text(text) && fresh_lines(
            highlighter,
            path,
            text,
            lines,
        ),
{
}

/// Lines, once shown, are shown again as they were, whatever the highlighter would
/// make of the file now, and the cache does not change.
pub proof fn law_shown_lines_are_kept<F: Fn(String, String) -> String, G: Fn(String, String) -> String>(
    first: F,
    second: G,
    before: CacheView,
    between: CacheView,
    after: CacheView,
    path: Seq<char>,
    lines: Seq<Seq<char>>,
    r: Result<Seq<Seq<char>>, Seq<char>>,
)
    requires
        file_shown(first, before, between, path, Ok::<Seq<Seq<char>>, Seq<char>>(lines)),
        lines.len() > 0,
        file_shown(second, between, after, path, r),
    ensures
        r == Ok::<Seq<Seq<char>>, Seq<char>>(lines),
        after == between,
{
    assert(between.is_shown(path));
    assert(after.shown == between.shown);
}

/// A file that is held is read the same way each time, and the cache does not
/// change.
pub proof fn law_held_file_is_read_the_same(
    cache: CacheView,
    after: CacheView,
    again: CacheView,
    path: Seq<char>,
    start: nat,
    end: nat,
    r: Result<Seq<char>, Seq<char>>,
    s: Result<Seq<char>, Seq<char>>,
)
    requires
        cache.files.contains_key(path_components(path)),
        lines_read(cache, after, path, start, end, r),
        lines_read(after, again, path, start, end, s),
    ensures
        r == s,
        after == cache,
        again == cache,
{
}

/// A step from one state of a cache to another that reads one file at most: lines
/// are kept for held files alone, files that were held stay as they were, and
/// nothing is learned of any other file.
pub open spec fn is_cache_step(before: CacheView, after: CacheView, path: Seq<char>) -> bool {
    &&& before.wf() ==> after.wf()
    &&& before.files.submap_of(after.files)
    &&& after.files.remove(path_components(path)) == before.files.remove(path_components(path))
    &&& after.shown.remove(path_components(path)) == before.shown.remove(path_components(path))
}

/// Reading lines of a file is such a step.
pub proof fn law_reading_lines_is_a_step(
    before: CacheView,
    after: CacheView,
    path: Seq<char>,
    start: nat,
    end: nat,
    r: Result<Seq<char>, Seq<char>>,
)
    requires
        lines_read(before, after, path, start, end, r),
    ensures
        is_cache_step(before, after, path),
{
    lemma_loaded_is_a_step(before, after, path);
}

/// Reading a file as text is such a step.
pub proof fn law_reading_text_is_a_step(
    before: CacheView,
    after: CacheView,
    path: Seq<char>,
    r: Result<Seq<char>, Seq<char>>,
)
    requires
        text_read(before, after, path, r),
    ensures
        is_cache_step(before, after, path),
{
    lemma_loaded_is_a_step(before, after, path);
}

/// Reading the bytes of a file is such a step.
pub proof fn law_reading_bytes_is_a_step(
    before: CacheView,
    after: CacheView,
    path: Seq<char>,
    r: Result<Seq<u8>, Seq<char>>,
)
    requires
        bytes_read(before, after, path, r),
    ensures
        is_cache_step(before, after, path),
{
    lemma_loaded_is_a_step(before, after, path);
}

/// Showing a file is such a step.
pub proof fn law_showing_is_a_step<F: Fn(String, String) -> String>(
    highlighter: F,
    before: CacheView,
    after: CacheView,
    path: Seq<char>,
    r: Result<Seq<Seq<char>>, Seq<char>>,
)
    requires
        file_shown(highlighter, before, after, path, r),
    ensures
        is_cache_step(before, after, path),
{
    let file = path_components(path);
    if after != before {
        assert(after.shown.remove(file) == before.shown.remove(file));
        assert(after.files.remove(file) == before.files.remove(file));
    }
}

proof fn lemma_loaded_is_a_step(before: CacheView, after: CacheView, path: Seq<char>)
    requires
        after.shown == before.shown,
        after == before || file_loaded(before, after, path),
    ensures
        is_cache_step(before, after, path),
{
    let file = path_components(path);
    assert(after.files.remove(file) == before.files.remove(file));
}

/// The view of a cache is what its file system holds, and the views of results are
/// their values or their errors.
pub proof fn law_cache_views_show_everything(
    cache: Cache,
    text: Result<String, String>,
    bytes: Result<Vec<u8>, String>,
    lines: Result<Vec<String>, String>,
)
    ensures
        cache@.files == vfs_files(cache.files),
        cache@.shown == vfs_shown(cache.files),
        CacheView::empty().files.dom() == Set::<Seq<Seq<char>>>::empty(),
        CacheView::empty().shown.dom() == Set::<Seq<Seq<char>>>::empty(),
        match text {
            Ok(s) => text_view(text) == Ok::<Seq<char>, Seq<char>>(s@),
            Err(e) => text_view(text) == Err::<Seq<char>, Seq<char>>(e@),
        },
        match bytes {
            Ok(b) => bytes_view(bytes) == Ok::<Seq<u8>, Seq<char>>(b@),
            Err(e) => bytes_view(bytes) == Err::<Seq<u8>, Seq<char>>(e@),
        },
        match lines {
            Ok(l) => lines_view(lines) == Ok::<Seq<Seq<char>>, Seq<char>>(l.deep_view()),
            Err(e) => lines_view(lines) == Err::<Seq<Seq<char>>, Seq<char>>(e@),
        },
{
}

} // verus!
