//! What a search finds, grouped by file and in order.

use vstd::prelude::*;
use vstd::relations::{sorted_by, total_ordering};

use crate::file_controller::span::{Span, SpanView};
use crate::text::{
    lemma_text_le_antisymmetric, lemma_text_le_reflexive, lemma_text_le_total,
    lemma_text_le_transitive, text_le, text_lt,
};
use crate::text::{same_text, text_in_order};

verus! {

/// A line of a file with a range of columns in it. Everything is counted from
/// one.
#[derive(Debug)]
pub struct LineResult {
    pub line_start: u64,
    pub column_start: u64,
    pub column_end: u64,
    pub line: String,
}

/// The lines found in a file.
#[derive(Debug)]
pub struct FileResult {
    pub file_name: String,
    pub lines: Vec<LineResult>,
}

/// A definition with the places that refer to it.
#[derive(Debug)]
pub struct DefResult {
    pub file: String,
    pub line: LineResult,
    pub refs: Vec<FileResult>,
}

/// The definitions that a search finds.
#[derive(Debug)]
pub struct SearchResult {
    pub defs: Vec<DefResult>,
}

/// The places that a search finds.
#[derive(Debug)]
pub struct FindResult {
    pub results: Vec<FileResult>,
}

/// A named item and where it is defined.
#[derive(Debug)]
pub struct SymbolResult {
    pub id: String,
    pub name: String,
    pub file_name: String,
    pub line_start: u64,
}

/// The values of a `LineResult`.
pub struct LineView {
    pub line_start: u64,
    pub column_start: u64,
    pub column_end: u64,
    pub line: Seq<char>,
}

/// The values of a `FileResult`.
#[verifier::ext_equal]
pub struct FileView {
    pub file_name: Seq<char>,
    pub lines: Seq<LineView>,
}

/// The values of a `DefResult`.
#[verifier::ext_equal]
pub struct DefView {
    pub file: Seq<char>,
    pub line: LineView,
    pub refs: Seq<FileView>,
}

/// The values of a `SymbolResult`.
pub struct SymbolView {
    pub id: Seq<char>,
    pub name: Seq<char>,
    pub file_name: Seq<char>,
    pub line_start: u64,
}

impl DeepView for LineResult {
    type V = LineView;

    open spec fn deep_view(&self) -> LineView {
        LineView {
            line_start: self.line_start,
            column_start: self.column_start,
            column_end: self.column_end,
            line: self.line@,
        }
    }
}

impl DeepView for FileResult {
    type V = FileView;

    open spec fn deep_view(&self) -> FileView {
        FileView { file_name: self.file_name@, lines: self.lines.deep_view() }
    }
}

impl DeepView for DefResult {
    type V = DefView;

    open spec fn deep_view(&self) -> DefView {
        DefView {
            file: self.file@,
            line: self.line.deep_view(),
            refs: self.refs.deep_view(),
        }
    }
}

impl DeepView for SymbolResult {
    type V = SymbolView;

    open spec fn deep_view(&self) -> SymbolView {
        SymbolView {
            id: self.id@,
            name: self.name@,
            file_name: self.file_name@,
            line_start: self.line_start,
        }
    }
}

/// The line that a span starts on, given its text.
pub open spec fn line_at(span: SpanView, line: Seq<char>) -> LineView {
    LineView {
        line_start: (span.row_start + 1) as u64,
        column_start: (span.col_start + 1) as u64,
        column_end: (span.col_end + 1) as u64,
        line,
    }
}

impl LineResult {
    /// The line that a span starts on, given its text.
    pub fn new(span: &Span, line: String) -> (r: LineResult)
        ensures
            r.deep_view() == line_at(span@, line@),
    {
        LineResult {
            line_start: span.row_start as u64 + 1,
            column_start: span.col_start as u64 + 1,
            column_end: span.col_end as u64 + 1,
            line,
        }
    }
}

// --------------------------------------------------------------------------
// The order of lines
// --------------------------------------------------------------------------

/// The order of lines: by row, then by first and last column, then by text.
pub open spec fn line_le(a: LineView, b: LineView) -> bool {
    if a.line_start != b.line_start {
        a.line_start < b.line_start
    } else if a.column_start != b.column_start {
        a.column_start < b.column_start
    } else if a.column_end != b.column_end {
        a.column_end < b.column_end
    } else {
        text_le(a.line, b.line)
    }
}

/// The order of lines as a relation.
pub open spec fn line_order() -> spec_fn(LineView, LineView) -> bool {
    |a: LineView, b: LineView| line_le(a, b)
}

/// The order of lines is a total order.
pub proof fn law_line_order_is_total()
    ensures
        total_ordering(line_order()),
{
    let le = line_order();
    assert forall|a: LineView| #[trigger] le(a, a) by {
        lemma_text_le_reflexive(a.line);
    }
    assert forall|a: LineView, b: LineView| #[trigger] le(a, b) && #[trigger] le(b, a) implies a == b by {
        lemma_text_le_antisymmetric(a.line, b.line);
    }
    assert forall|a: LineView, b: LineView, c: LineView| #[trigger]
        le(a, b) && #[trigger] le(b, c) implies le(a, c) by {
        if text_le(a.line, b.line) && text_le(b.line, c.line) {
            lemma_text_le_transitive(a.line, b.line, c.line);
        }
    }
    assert forall|a: LineView, b: LineView| #[trigger] le(a, b) || #[trigger] le(b, a) by {
        lemma_text_le_total(a.line, b.line);
    }
}

/// Whether line `a` stands before line `b`, or is equal to it.
pub fn lines_in_order(a: &LineResult, b: &LineResult) -> (r: bool)
    ensures
        r == line_le(a.deep_view(), b.deep_view()),
{
    if a.line_start != b.line_start {
        a.line_start < b.line_start
    } else if a.column_start != b.column_start {
        a.column_start < b.column_start
    } else if a.column_end != b.column_end {
        a.column_end < b.column_end
    } else {
        text_in_order(a.line.as_str(), b.line.as_str())
    }
}

/// Lines in their order.
pub open spec fn sorted_lines(lines: Seq<LineView>) -> Seq<LineView> {
    lines.sort_by(line_order())
}

proof fn lemma_sorted_lines_unique(lines: Seq<LineView>, sorted: Seq<LineView>)
    requires
        sorted_by(sorted, line_order()),
        sorted.to_multiset() == lines.to_multiset(),
    ensures
        sorted == sorted_lines(lines),
{
    law_line_order_is_total();
    lines.lemma_sort_by_ensures(line_order());
    vstd::seq_lib::lemma_sorted_unique(sorted, lines.sort_by(line_order()), line_order());
}

/// Puts a line into its place among lines that are in order.
pub fn insert_line(lines: &mut Vec<LineResult>, line: LineResult)
    requires
        sorted_by(old(lines).deep_view(), line_order()),
    ensures
        sorted_by(final(lines).deep_view(), line_order()),
        final(lines).deep_view().to_multiset() == old(lines).deep_view().to_multiset().insert(
            line.deep_view(),
        ),
        final(lines).len() == old(lines).len() + 1,
{
    let ghost before = lines.deep_view();
    let ghost new = line.deep_view();
    let mut i: usize = 0;
    while i < lines.len() && lines_in_order(&lines[i], &line)
        invariant
            i <= lines.len(),
            lines.deep_view() == before,
            new == line.deep_view(),
            forall|j: int| 0 <= j < i ==> line_le(#[trigger] before[j], new),
        decreases lines.len() - i,
    {
        i += 1;
    }
    lines.insert(i, line);
    proof {
        assert(lines.deep_view() == before.insert(i as int, new));
        law_line_order_is_total();
        let le = line_order();
        let after = lines.deep_view();
        if i < before.len() {
            assert(!le(before[i as int], new));
            assert(le(new, before[i as int]));
        }
        assert forall|a: int, b: int| 0 <= a < b < after.len() implies #[trigger] le(after[a], after[b]) by {
            let x = if a < i { before[a] } else if a == i { new } else { before[a - 1] };
            let y = if b < i { before[b] } else if b == i { new } else { before[b - 1] };
            assert(after[a] == x && after[b] == y);
            if a < i && b == i {
                assert(line_le(before[a], new));
                assert(le(before[a], new));
            } else if a == i {
                assert(le(before[i as int], before[b - 1]) || b - 1 == i);
                if b - 1 == i {
                } else {
                    assert(le(new, before[i as int]) && le(before[i as int], before[b - 1]));
                }
            } else if a < i && b < i {
                assert(le(before[a], before[b]));
            } else if a < i {
                assert(le(before[a], before[b - 1]));
            } else {
                assert(le(before[a - 1], before[b - 1]));
            }
        }
        before.to_multiset_ensures();
        vstd::seq_lib::to_multiset_insert(before, i as int, new);
    }
}

// --------------------------------------------------------------------------
// Lines by file
// --------------------------------------------------------------------------

/// A line found in a file.
pub struct FoundView {
    pub file_name: Seq<char>,
    pub line: LineView,
}

/// The lines found in one file, in the order in which they were found.
pub open spec fn lines_in(found: Seq<FoundView>, file_name: Seq<char>) -> Seq<LineView>
    decreases found.len(),
{
    if found.len() == 0 {
        Seq::empty()
    } else if found.last().file_name == file_name {
        lines_in(found.drop_last(), file_name).push(found.last().line)
    } else {
        lines_in(found.drop_last(), file_name)
    }
}

/// Whether files stand in the order of their names, none twice, each with its
/// lines in order.
pub open spec fn files_in_order(files: Seq<FileView>) -> bool {
    &&& forall|i: int, j: int| 0 <= i < j < files.len() ==> text_lt(
        #[trigger] files[i].file_name,
        #[trigger] files[j].file_name,
    )
    &&& forall|i: int| 0 <= i < files.len() ==> sorted_by((#[trigger] files[i]).lines, line_order())
}

/// Whether `files` are the lines found, by file: the files in the order of their
/// names, each with its lines in order, every file in which a line was found,
/// and no other.
pub open spec fn grouped(found: Seq<FoundView>, files: Seq<FileView>) -> bool {
    &&& files_in_order(files)
    &&& forall|i: int| 0 <= i < files.len() ==> (#[trigger] files[i]).lines == sorted_lines(
        lines_in(found, files[i].file_name),
    )
    &&& forall|i: int| 0 <= i < files.len() ==> (#[trigger] files[i]).lines.len() > 0
    &&& forall|k: int| 0 <= k < found.len() ==> has_file(files, (#[trigger] found[k]).file_name)
}

/// Whether a file of that name is among the files.
pub open spec fn has_file(files: Seq<FileView>, file_name: Seq<char>) -> bool {
    exists|i: int| 0 <= i < files.len() && (#[trigger] files[i]).file_name == file_name
}

proof fn lemma_lines_in_absent(found: Seq<FoundView>, file_name: Seq<char>)
    requires
        forall|k: int| 0 <= k < found.len() ==> (#[trigger] found[k]).file_name != file_name,
    ensures
        lines_in(found, file_name) == Seq::<LineView>::empty(),
    decreases found.len(),
{
    if found.len() > 0 {
        assert forall|k: int| 0 <= k < found.drop_last().len() implies (#[trigger] found.drop_last()[k]).file_name
            != file_name by {
            assert(found[k].file_name != file_name);
        }
        lemma_lines_in_absent(found.drop_last(), file_name);
        assert(found.last() == found[found.len() - 1]);
    }
}

proof fn lemma_lines_in_push(found: Seq<FoundView>, one: FoundView, file_name: Seq<char>)
    ensures
        lines_in(found.push(one), file_name) == if one.file_name == file_name {
            lines_in(found, file_name).push(one.line)
        } else {
            lines_in(found, file_name)
        },
{
    assert(found.push(one).drop_last() == found);
}

/// Files stay in order if one of them gets other lines.
proof fn lemma_order_after_update(before: Seq<FileView>, i: int, file: FileView)
    requires
        files_in_order(before),
        0 <= i < before.len(),
        before[i].file_name == file.file_name,
        sorted_by(file.lines, line_order()),
    ensures
        files_in_order(before.update(i, file)),
{
    let after = before.update(i, file);
    assert forall|a: int, b: int| 0 <= a < b < after.len() implies text_lt(
        #[trigger] after[a].file_name,
        #[trigger] after[b].file_name,
    ) by {
        assert(text_lt(before[a].file_name, before[b].file_name));
    }
}

/// Files stay in order if another one is put where its name belongs.
proof fn lemma_order_after_insert(before: Seq<FileView>, i: int, new: FileView)
    requires
        files_in_order(before),
        0 <= i <= before.len(),
        forall|j: int| 0 <= j < i ==> text_lt((#[trigger] before[j]).file_name, new.file_name),
        forall|j: int|
            i <= j < before.len() ==> text_lt(new.file_name, (#[trigger] before[j]).file_name),
        sorted_by(new.lines, line_order()),
    ensures
        files_in_order(before.insert(i, new)),
{
    let after = before.insert(i, new);
    assert forall|a: int, b: int| 0 <= a < b < after.len() implies text_lt(
        #[trigger] after[a].file_name,
        #[trigger] after[b].file_name,
    ) by {
        let x = if a < i { before[a] } else if a == i { new } else { before[a - 1] };
        let y = if b < i { before[b] } else if b == i { new } else { before[b - 1] };
        assert(after[a] == x && after[b] == y);
        if a < i && b == i {
            assert(text_lt(before[a].file_name, new.file_name));
        } else if a == i {
            assert(text_lt(new.file_name, before[b - 1].file_name));
        } else if a < i && b < i {
            assert(text_lt(before[a].file_name, before[b].file_name));
        } else if a < i {
            assert(text_lt(before[a].file_name, before[b - 1].file_name));
        } else {
            assert(text_lt(before[a - 1].file_name, before[b - 1].file_name));
        }
    }
    assert forall|j: int| 0 <= j < after.len() implies sorted_by(
        (#[trigger] after[j]).lines,
        line_order(),
    ) by {
        if j < i {
            assert(after[j] == before[j]);
        } else if j > i {
            assert(after[j] == before[j - 1]);
        }
    }
}

/// One more line in a file that is there already.
proof fn lemma_grouped_update(
    found: Seq<FoundView>,
    before: Seq<FileView>,
    after: Seq<FileView>,
    i: int,
    one: FoundView,
)
    requires
        grouped(found, before),
        0 <= i < before.len(),
        before[i].file_name == one.file_name,
        after == before.update(i, after[i]),
        after[i].file_name == one.file_name,
        sorted_by(after[i].lines, line_order()),
        after[i].lines.to_multiset() == before[i].lines.to_multiset().insert(one.line),
        after[i].lines.len() > 0,
    ensures
        grouped(found.push(one), after),
{
    let more = found.push(one);
    assert forall|j: int| 0 <= j < after.len() implies (#[trigger] after[j]).lines == sorted_lines(
        lines_in(more, after[j].file_name),
    ) by {
        lemma_lines_in_push(found, one, after[j].file_name);
        if j == i {
            let lines = lines_in(found, one.file_name);
            law_line_order_is_total();
            lines.lemma_sort_by_ensures(line_order());
            assert(before[i].lines == sorted_lines(lines));
            vstd::seq_lib::to_multiset_build(lines, one.line);
            lemma_sorted_lines_unique(lines.push(one.line), after[i].lines);
        } else {
            assert(after[j] == before[j]);
            if j < i {
                assert(text_lt(before[j].file_name, before[i].file_name));
            } else {
                assert(text_lt(before[i].file_name, before[j].file_name));
            }
        }
    }
    assert forall|k: int| 0 <= k < more.len() implies has_file(after, (#[trigger] more[k]).file_name) by {
        if k < found.len() {
            assert(more[k] == found[k]);
            let j = choose|j: int| 0 <= j < before.len() && (#[trigger] before[j]).file_name == found[k].file_name;
            assert(after[j].file_name == found[k].file_name);
        } else {
            assert(after[i].file_name == one.file_name);
        }
    }
    lemma_order_after_update(before, i, after[i]);
}

/// A line in a file that was not there.
proof fn lemma_grouped_insert(
    found: Seq<FoundView>,
    before: Seq<FileView>,
    i: int,
    one: FoundView,
)
    requires
        grouped(found, before),
        0 <= i <= before.len(),
        forall|j: int| 0 <= j < i ==> text_lt((#[trigger] before[j]).file_name, one.file_name),
        forall|j: int| i <= j < before.len() ==> text_lt(one.file_name, (#[trigger] before[j]).file_name),
    ensures
        grouped(
            found.push(one),
            before.insert(i, FileView { file_name: one.file_name, lines: seq![one.line] }),
        ),
{
    let new = FileView { file_name: one.file_name, lines: seq![one.line] };
    let after = before.insert(i, new);
    let more = found.push(one);
    assert forall|k: int| 0 <= k < found.len() implies (#[trigger] found[k]).file_name != one.file_name by {
        assert(has_file(before, found[k].file_name));
        let j = choose|j: int| 0 <= j < before.len() && (#[trigger] before[j]).file_name == found[k].file_name;
        if j < i {
            assert(text_lt(before[j].file_name, one.file_name));
        } else {
            assert(text_lt(one.file_name, before[j].file_name));
        }
    }
    lemma_lines_in_absent(found, one.file_name);
    assert forall|j: int| 0 <= j < after.len() implies (#[trigger] after[j]).lines == sorted_lines(
        lines_in(more, after[j].file_name),
    ) && after[j].lines.len() > 0 by {
        lemma_lines_in_push(found, one, after[j].file_name);
        if j == i {
            assert(lines_in(more, one.file_name) == seq![one.line]);
            lemma_sorted_lines_unique(seq![one.line], seq![one.line]);
        } else {
            let b = if j < i { before[j] } else { before[j - 1] };
            assert(after[j] == b);
            assert(b.file_name != one.file_name);
        }
    }
    lemma_order_after_insert(before, i, new);
    assert forall|k: int| 0 <= k < more.len() implies has_file(after, (#[trigger] more[k]).file_name) by {
        if k < found.len() {
            assert(more[k] == found[k]);
            assert(has_file(before, found[k].file_name));
            let j = choose|j: int| 0 <= j < before.len() && (#[trigger] before[j]).file_name == found[k].file_name;
            if j < i {
                assert(after[j].file_name == found[k].file_name);
            } else {
                assert(after[j + 1].file_name == found[k].file_name);
            }
        } else {
            assert(after[i].file_name == one.file_name);
        }
    }
}

/// Adds a line to the lines found, under the file that it stands in.
pub fn add_line(files: &mut Vec<FileResult>, file_name: String, line: LineResult)
    requires
        files_in_order(old(files).deep_view()),
    ensures
        forall|found: Seq<FoundView>| #[trigger]
            grouped(found, old(files).deep_view()) ==> grouped(
                found.push(FoundView { file_name: file_name@, line: line.deep_view() }),
                final(files).deep_view(),
            ),
        files_in_order(final(files).deep_view()),
{
    let ghost before = files.deep_view();
    let ghost one = FoundView { file_name: file_name@, line: line.deep_view() };
    let mut i: usize = 0;
    while i < files.len() && !text_in_order(file_name.as_str(), files[i].file_name.as_str())
        invariant
            i <= files.len(),
            files.deep_view() == before,
            file_name@ == one.file_name,
            forall|j: int| 0 <= j < i ==> text_lt((#[trigger] before[j]).file_name, one.file_name),
        decreases files.len() - i,
    {
        proof {
            lemma_text_le_total(before[i as int].file_name, one.file_name);
            lemma_text_le_reflexive(one.file_name);
        }
        i += 1;
    }
    if i < files.len() && same_text(file_name.as_str(), files[i].file_name.as_str()) {
        let mut file = files.remove(i);
        assert(file.deep_view() == before[i as int]);
        insert_line(&mut file.lines, line);
        files.insert(i, file);
        let ghost after = files.deep_view();
        proof {
            assert(after == before.update(i as int, after[i as int]));
            assert(file.lines.len() == file.lines.deep_view().len());
            lemma_order_after_update(before, i as int, after[i as int]);
            assert forall|found: Seq<FoundView>| #[trigger] grouped(found, before) implies grouped(
                found.push(one),
                after,
            ) by {
                lemma_grouped_update(found, before, after, i as int, one);
            }
        }
    } else {
        let mut lines: Vec<LineResult> = Vec::new();
        lines.push(line);
        let file = FileResult { file_name, lines };
        let ghost new = FileView { file_name: one.file_name, lines: seq![one.line] };
        assert(file.deep_view() == new);
        files.insert(i, file);
        let ghost after = files.deep_view();
        proof {
            assert(after == before.insert(i as int, new));
            assert forall|j: int| i <= j < before.len() implies text_lt(
                one.file_name,
                (#[trigger] before[j]).file_name,
            ) by {
                if j > i {
                    assert(text_lt(before[i as int].file_name, before[j].file_name));
                    lemma_text_le_transitive(one.file_name, before[i as int].file_name, before[j].file_name);
                    if one.file_name == before[j].file_name {
                        lemma_text_le_antisymmetric(before[i as int].file_name, before[j].file_name);
                    }
                }
            }
            lemma_order_after_insert(before, i as int, new);
            assert forall|found: Seq<FoundView>| #[trigger] grouped(found, before) implies grouped(
                found.push(one),
                after,
            ) by {
                lemma_grouped_insert(found, before, i as int, one);
            }
        }
    }
}

proof fn lemma_lines_in_count(found: Seq<FoundView>, file_name: Seq<char>, line: LineView)
    ensures
        lines_in(found, file_name).to_multiset().count(line) == found.to_multiset().count(
            FoundView { file_name, line },
        ),
    decreases found.len(),
{
    let one = FoundView { file_name, line };
    if found.len() == 0 {
        found.to_multiset_ensures();
        lines_in(found, file_name).to_multiset_ensures();
        assert(!found.contains(one));
    } else {
        let rest = found.drop_last();
        lemma_lines_in_count(rest, file_name, line);
        assert(found == rest.push(found.last()));
        vstd::seq_lib::to_multiset_build(rest, found.last());
        vstd::seq_lib::to_multiset_build(lines_in(rest, file_name), found.last().line);
    }
}

proof fn lemma_has_found(found: Seq<FoundView>, files: Seq<FileView>, i: int) -> (k: int)
    requires
        grouped(found, files),
        0 <= i < files.len(),
    ensures
        0 <= k < found.len(),
        found[k].file_name == files[i].file_name,
{
    if forall|k: int| 0 <= k < found.len() ==> (#[trigger] found[k]).file_name != files[i].file_name {
        lemma_lines_in_absent(found, files[i].file_name);
        law_line_order_is_total();
        lines_in(found, files[i].file_name).lemma_sort_by_ensures(line_order());
        vstd::seq_lib::to_multiset_len(files[i].lines);
        vstd::seq_lib::to_multiset_len(lines_in(found, files[i].file_name));
        assert(false);
    }
    choose|k: int| 0 <= k < found.len() && (#[trigger] found[k]).file_name == files[i].file_name
}

proof fn lemma_same_names(found: Seq<FoundView>, more: Seq<FoundView>, a: Seq<FileView>, b: Seq<FileView>, i: int)
    requires
        grouped(found, a),
        grouped(more, b),
        found.to_multiset() == more.to_multiset(),
        0 <= i < a.len(),
    ensures
        has_file(b, a[i].file_name),
{
    let k = lemma_has_found(found, a, i);
    vstd::seq_lib::to_multiset_contains(found, found[k]);
    vstd::seq_lib::to_multiset_contains(more, found[k]);
    assert(found.contains(found[k]));
    let m = choose|m: int| 0 <= m < more.len() && more[m] == found[k];
    assert(has_file(b, more[m].file_name));
}

proof fn lemma_names_agree(
    found: Seq<FoundView>,
    more: Seq<FoundView>,
    a: Seq<FileView>,
    b: Seq<FileView>,
    i: int,
)
    requires
        grouped(found, a),
        grouped(more, b),
        found.to_multiset() == more.to_multiset(),
        0 <= i < a.len(),
    ensures
        i < b.len(),
        a[i].file_name == b[i].file_name,
    decreases i,
{
    assert forall|j: int| 0 <= j < i implies j < b.len() && (#[trigger] a[j]).file_name == b[j].file_name by {
        lemma_names_agree(found, more, a, b, j);
    }
    lemma_same_names(found, more, a, b, i);
    let j = choose|j: int| 0 <= j < b.len() && (#[trigger] b[j]).file_name == a[i].file_name;
    if j < i {
        assert(a[j].file_name == b[j].file_name);
        assert(text_lt(a[j].file_name, a[i].file_name));
    }
    if j > i {
        lemma_same_names(more, found, b, a, i);
        let k = choose|k: int| 0 <= k < a.len() && (#[trigger] a[k]).file_name == b[i].file_name;
        assert(text_lt(b[i].file_name, b[j].file_name));
        if k < i {
            assert(a[k].file_name == b[k].file_name);
            assert(text_lt(b[k].file_name, b[i].file_name));
        } else if k > i {
            assert(text_lt(a[i].file_name, a[k].file_name));
            lemma_text_le_antisymmetric(a[i].file_name, b[i].file_name);
        }
    }
}

/// The order in which lines are found does not matter: the same lines, found in
/// any order, are shown the same way.
pub proof fn law_order_of_finding_is_irrelevant(
    found: Seq<FoundView>,
    more: Seq<FoundView>,
    a: Seq<FileView>,
    b: Seq<FileView>,
)
    requires
        grouped(found, a),
        grouped(more, b),
        found.to_multiset() == more.to_multiset(),
    ensures
        a == b,
{
    if a.len() > b.len() {
        lemma_names_agree(found, more, a, b, b.len() as int);
    }
    if b.len() > a.len() {
        lemma_names_agree(more, found, b, a, a.len() as int);
    }
    assert forall|i: int| 0 <= i < a.len() implies a[i] == b[i] by {
        lemma_names_agree(found, more, a, b, i);
        let name = a[i].file_name;
        let x = lines_in(found, name);
        let y = lines_in(more, name);
        assert forall|line: LineView| #[trigger] x.to_multiset().count(line) == y.to_multiset().count(line) by {
            lemma_lines_in_count(found, name, line);
            lemma_lines_in_count(more, name, line);
        }
        assert(x.to_multiset() =~= y.to_multiset());
        law_line_order_is_total();
        y.lemma_sort_by_ensures(line_order());
        lemma_sorted_lines_unique(x, sorted_lines(y));
    }
    assert(a =~= b);
}

/// Nothing found is lost and nothing is made up: a line is shown under a file as
/// often as it was found there.
pub proof fn law_every_line_is_shown(found: Seq<FoundView>, files: Seq<FileView>, one: FoundView)
    requires
        grouped(found, files),
    ensures
        found.contains(one) ==> has_file(files, one.file_name),
        forall|i: int|
            0 <= i < files.len() && (#[trigger] files[i]).file_name == one.file_name
                ==> files[i].lines.to_multiset().count(one.line) == found.to_multiset().count(one),
{
    if found.contains(one) {
        let k = choose|k: int| 0 <= k < found.len() && found[k] == one;
        assert(has_file(files, found[k].file_name));
    }
    assert forall|i: int|
        0 <= i < files.len() && (#[trigger] files[i]).file_name
            == one.file_name implies files[i].lines.to_multiset().count(one.line)
        == found.to_multiset().count(one) by {
        law_line_order_is_total();
        lines_in(found, one.file_name).lemma_sort_by_ensures(line_order());
        lemma_lines_in_count(found, one.file_name, one.line);
    }
}

/// The lines shown for a file stand by their numbers: the line never decreases, on
/// one line the first column never decreases, and from one column on the last
/// column never decreases. Files stand by their names, and none stands twice.
pub proof fn law_lines_stand_by_number(found: Seq<FoundView>, files: Seq<FileView>)
    requires
        grouped(found, files),
    ensures
        forall|f: int, a: int, b: int|
            0 <= f < files.len() && 0 <= a < b < files[f].lines.len() ==> {
                let x = #[trigger] files[f].lines[a];
                let y = #[trigger] files[f].lines[b];
                &&& x.line_start <= y.line_start
                &&& x.line_start == y.line_start ==> x.column_start <= y.column_start
                &&& x.line_start == y.line_start && x.column_start == y.column_start
                    ==> x.column_end <= y.column_end
            },
        forall|f: int, g: int|
            0 <= f < g < files.len() ==> {
                let x = (#[trigger] files[f]).file_name;
                let y = (#[trigger] files[g]).file_name;
                x != y && text_le(x, y)
            },
{
    assert forall|f: int, a: int, b: int|
        0 <= f < files.len() && 0 <= a < b < files[f].lines.len() implies {
        let x = #[trigger] files[f].lines[a];
        let y = #[trigger] files[f].lines[b];
        &&& x.line_start <= y.line_start
        &&& x.line_start == y.line_start ==> x.column_start <= y.column_start
        &&& x.line_start == y.line_start && x.column_start == y.column_start
            ==> x.column_end <= y.column_end
    } by {
        assert(sorted_by(files[f].lines, line_order()));
        assert(line_order()(files[f].lines[a], files[f].lines[b]));
    }
    assert forall|f: int, g: int| 0 <= f < g < files.len() implies {
        let x = (#[trigger] files[f]).file_name;
        let y = (#[trigger] files[g]).file_name;
        x != y && text_le(x, y)
    } by {
        assert(text_lt(files[f].file_name, files[g].file_name));
    }
}

/// The views of results show every field, each as it is.
pub proof fn law_result_views_show_every_field(
    line: LineResult,
    file: FileResult,
    def: DefResult,
    symbol: SymbolResult,
    i: int,
)
    ensures
        line.deep_view().line_start == line.line_start,
        line.deep_view().column_start == line.column_start,
        line.deep_view().column_end == line.column_end,
        line.deep_view().line == line.line@,
        file.deep_view().file_name == file.file_name@,
        file.deep_view().lines.len() == file.lines.len(),
        0 <= i < file.lines.len() ==> file.deep_view().lines[i] == file.lines[i].deep_view(),
        def.deep_view().file == def.file@,
        def.deep_view().line == def.line.deep_view(),
        def.deep_view().refs.len() == def.refs.len(),
        0 <= i < def.refs.len() ==> def.deep_view().refs[i] == def.refs[i].deep_view(),
        symbol.deep_view().id == symbol.id@,
        symbol.deep_view().name == symbol.name@,
        symbol.deep_view().file_name == symbol.file_name@,
        symbol.deep_view().line_start == symbol.line_start,
{
}

/// A line is numbered by the span that it stands at, counted from one, and shows its
/// text.
pub proof fn law_line_is_numbered_from_one(span: SpanView, line: Seq<char>)
    ensures
        line_at(span, line).line_start == span.row_start + 1,
        line_at(span, line).column_start == span.col_start + 1,
        line_at(span, line).column_end == span.col_end + 1,
        line_at(span, line).line == line,
{
}

} // verus!
