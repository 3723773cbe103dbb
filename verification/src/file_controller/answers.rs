//! What searches answer, in terms of the places that the analysis names.

use vstd::prelude::*;

use crate::file_controller::analysis::{
    gives_def, gives_ids, gives_impls, gives_refs, gives_roots, DefinitionView, RootView,
};
use crate::file_controller::analysis::Analysis;
use crate::file_controller::file_cache::{file_shown, CacheView};
use crate::file_controller::outcome::{
    child_symbols, def_found, def_looked_up, def_shown, defs_found, file_path, files_shown,
    found_defs, impls_found, impls_shown, line_of, line_shown, lines_found, name_found, root_symbols, roots_known, span_line,
    span_shown, spans_shown, steps_outcome, steps_taken,
};
use crate::file_controller::results::{
    grouped, law_every_line_is_shown, law_lines_stand_by_number, DefView, FileView, FoundView,
    LineView, SymbolView,
};
use crate::file_controller::span::{span_debug, SpanView};
use crate::number::{decimal, law_number_round_trip, number_of};
use crate::path::path_components;

verus! {

// --------------------------------------------------------------------------
// Places
// --------------------------------------------------------------------------

/// Whether a line stands at a span: the numbers are those of the span, counted from
/// one.
pub open spec fn stands_at(line: LineView, span: SpanView) -> bool {
    &&& line.line_start == span.row_start + 1
    &&& line.column_start == span.col_start + 1
    &&& line.column_end == span.col_end + 1
}

proof fn lemma_line_of_span<F: Fn(String, String) -> String>(
    highlighter: F,
    before: CacheView,
    after: CacheView,
    path: Seq<char>,
    span: SpanView,
    r: Result<LineView, Seq<char>>,
) -> (shown: Result<Seq<Seq<char>>, Seq<char>>)
    requires
        span_shown(highlighter, before, after, path, span, r),
    ensures
        file_shown(highlighter, before, after, path, shown),
        r is Ok <==> (shown matches Ok(lines) && span.row_start < lines.len()),
        r matches Ok(line) ==> stands_at(line, span) && line.line
            == shown->Ok_0[span.row_start as int],
{
    let line = choose|line: Result<Option<Seq<char>>, Seq<char>>| #[trigger]
        line_shown(highlighter, before, after, path, span.row_start as nat, line) && r == span_line(
            span,
            line,
        );
    choose|shown: Result<Seq<Seq<char>>, Seq<char>>| #[trigger]
        file_shown(highlighter, before, after, path, shown) && line == line_of(
            shown,
            span.row_start as nat,
        )
}

proof fn lemma_found_comes_from(
    project_dir: Seq<char>,
    spans: Seq<SpanView>,
    lines: Seq<Result<LineView, Seq<char>>>,
    one: FoundView,
)
    requires
        lines_found(project_dir, spans, lines).contains(one),
    ensures
        exists|j: int|
            0 <= j < lines.len() && #[trigger] lines[j] == Ok::<LineView, Seq<char>>(one.line)
                && one.file_name == file_path(project_dir, spans[j].file),
    decreases lines.len(),
{
    if lines.len() > 0 {
        let n = lines.len() - 1;
        let found = lines_found(project_dir, spans, lines);
        let before = lines_found(project_dir, spans, lines.drop_last());
        let k = choose|k: int| 0 <= k < found.len() && found[k] == one;
        if k < before.len() {
            assert(before[k] == one);
            lemma_found_comes_from(project_dir, spans, lines.drop_last(), one);
            let j = choose|j: int|
                0 <= j < n && #[trigger] lines.drop_last()[j] == Ok::<LineView, Seq<char>>(one.line)
                    && one.file_name == file_path(project_dir, spans[j].file);
            assert(lines[j] == lines.drop_last()[j]);
        } else {
            assert(lines[n] == Ok::<LineView, Seq<char>>(one.line));
        }
    }
}

/// Every line that is shown stands at one of the spans, in its file.
pub proof fn law_results_are_places<F: Fn(String, String) -> String>(
    highlighter: F,
    project_dir: Seq<char>,
    before: CacheView,
    after: CacheView,
    spans: Seq<SpanView>,
    files: Seq<FileView>,
)
    requires
        files_shown(highlighter, project_dir, before, after, spans, files),
    ensures
        forall|f: int, k: int|
            0 <= f < files.len() && 0 <= k < files[f].lines.len() ==> exists|j: int|
                0 <= j < spans.len() && stands_at(#[trigger] files[f].lines[k], #[trigger] spans[j])
                    && files[f].file_name == file_path(project_dir, spans[j].file),
{
    broadcast use vstd::seq_lib::group_to_multiset_ensures;

    let (states, lines) = choose|
        states: Seq<CacheView>,
        lines: Seq<Result<LineView, Seq<char>>>,
    |
        {
            &&& #[trigger] spans_shown(highlighter, project_dir, states, spans, lines)
            &&& states[0] == before
            &&& states.last() == after
            &&& grouped(lines_found(project_dir, spans, lines), files)
        };
    let found = lines_found(project_dir, spans, lines);
    assert forall|f: int, k: int|
        0 <= f < files.len() && 0 <= k < files[f].lines.len() implies exists|j: int|
        0 <= j < spans.len() && stands_at(#[trigger] files[f].lines[k], #[trigger] spans[j])
            && files[f].file_name == file_path(project_dir, spans[j].file) by {
        let one = FoundView { file_name: files[f].file_name, line: files[f].lines[k] };
        law_every_line_is_shown(found, files, one);
        assert(files[f].lines.contains(files[f].lines[k]));
        assert(files[f].lines.to_multiset().count(one.line) > 0);
        assert(found.to_multiset().count(one) > 0);
        assert(found.contains(one));
        lemma_found_comes_from(project_dir, spans, lines, one);
        let j = choose|j: int|
            0 <= j < lines.len() && #[trigger] lines[j] == Ok::<LineView, Seq<char>>(one.line)
                && one.file_name == file_path(project_dir, spans[j].file);
        let line = lines[j];
        let shown = lemma_line_of_span(
            highlighter,
            states[j],
            states[j + 1],
            file_path(project_dir, spans[j].file),
            spans[j],
            line,
        );
        assert(stands_at(files[f].lines[k], spans[j]));
    }
}

/// In the results for a file the line numbers never decrease, and on one line the
/// columns never decrease. Files stand by their names, none twice, and none without
/// a line.
pub proof fn law_results_are_in_order<F: Fn(String, String) -> String>(
    highlighter: F,
    project_dir: Seq<char>,
    before: CacheView,
    after: CacheView,
    spans: Seq<SpanView>,
    files: Seq<FileView>,
)
    requires
        files_shown(highlighter, project_dir, before, after, spans, files),
    ensures
        forall|f: int, a: int, b: int|
            0 <= f < files.len() && 0 <= a < b < files[f].lines.len() ==> {
                let x = #[trigger] files[f].lines[a];
                let y = #[trigger] files[f].lines[b];
                &&& x.line_start <= y.line_start
                &&& x.line_start == y.line_start ==> x.column_start <= y.column_start
                &&& x.line_start == y.line_start && x.column_start == y.column_start
                    ==> x.column_end <= y.column_end
            },
        forall|f: int| 0 <= f < files.len() ==> (#[trigger] files[f]).lines.len() > 0,
        forall|f: int, g: int|
            0 <= f < g < files.len() ==> (#[trigger] files[f]).file_name != (
            #[trigger] files[g]).file_name,
{
    let (states, lines) = choose|
        states: Seq<CacheView>,
        lines: Seq<Result<LineView, Seq<char>>>,
    |
        {
            &&& #[trigger] spans_shown(highlighter, project_dir, states, spans, lines)
            &&& states[0] == before
            &&& states.last() == after
            &&& grouped(lines_found(project_dir, spans, lines), files)
        };
    law_lines_stand_by_number(lines_found(project_dir, spans, lines), files);
}

/// The line that a span gives when its file is shown already.
pub open spec fn known_line(cache: CacheView, project_dir: Seq<char>, span: SpanView) -> FoundView {
    let path = file_path(project_dir, span.file);
    FoundView {
        file_name: path,
        line: LineView {
            line_start: (span.row_start + 1) as u64,
            column_start: (span.col_start + 1) as u64,
            column_end: (span.col_end + 1) as u64,
            line: cache.shown[path_components(path)][span.row_start as int],
        },
    }
}

/// Whether a cache shows the line that a span starts on.
pub open spec fn is_known(cache: CacheView, project_dir: Seq<char>, span: SpanView) -> bool {
    let file = path_components(file_path(project_dir, span.file));
    &&& cache.files.contains_key(file)
    &&& cache.files[file] is Text
    &&& cache.shown.contains_key(file)
    &&& span.row_start < cache.shown[file].len()
}

proof fn lemma_known_lines_are_found<F: Fn(String, String) -> String>(
    highlighter: F,
    project_dir: Seq<char>,
    states: Seq<CacheView>,
    spans: Seq<SpanView>,
    lines: Seq<Result<LineView, Seq<char>>>,
    k: int,
)
    requires
        spans_shown(highlighter, project_dir, states, spans, lines),
        forall|i: int| 0 <= i < spans.len() ==> is_known(states[0], project_dir, #[trigger] spans[i]),
        0 <= k <= spans.len(),
    ensures
        states[k] == states[0],
        lines_found(project_dir, spans, lines.take(k)) == spans.take(k).map_values(
            |s: SpanView| known_line(states[0], project_dir, s),
        ),
    decreases k,
{
    let known = |s: SpanView| known_line(states[0], project_dir, s);
    if k > 0 {
        lemma_known_lines_are_found(highlighter, project_dir, states, spans, lines, k - 1);
        let span = spans[k - 1];
        let path = file_path(project_dir, span.file);
        let line = lines[k - 1];
        assert(is_known(states[0], project_dir, span));
        let shown = lemma_line_of_span(highlighter, states[k - 1], states[k], path, span, line);
        assert(states[k - 1].is_shown(path));
        assert(states[k].shown == states[k - 1].shown);
        assert(lines.take(k).drop_last() == lines.take(k - 1));
        assert(spans.take(k) == spans.take(k - 1).push(span));
        assert(spans.take(k).map_values(known) == spans.take(k - 1).map_values(known).push(
            known(span),
        ));
        assert(line == Ok::<LineView, Seq<char>>(known(span).line));
    } else {
        assert(spans.take(0).map_values(known) == Seq::<FoundView>::empty());
    }
}

/// Where every file is shown already, each span gives its line exactly once: under
/// each file a line stands as often as there are spans at it, with the text that is
/// shown there, and nothing changes.
pub proof fn law_every_known_place_is_shown<F: Fn(String, String) -> String>(
    highlighter: F,
    project_dir: Seq<char>,
    before: CacheView,
    after: CacheView,
    spans: Seq<SpanView>,
    files: Seq<FileView>,
)
    requires
        files_shown(highlighter, project_dir, before, after, spans, files),
        forall|i: int| 0 <= i < spans.len() ==> is_known(before, project_dir, #[trigger] spans[i]),
    ensures
        after == before,
        forall|i: int|
            0 <= i < spans.len() ==> exists|f: int|
                0 <= f < files.len() && (#[trigger] files[f]).file_name == file_path(
                    project_dir,
                    (#[trigger] spans[i]).file,
                ),
        forall|f: int, line: LineView|
            0 <= f < files.len() ==> #[trigger] files[f].lines.to_multiset().count(line)
                == spans.map_values(
                |s: SpanView| known_line(before, project_dir, s),
            ).to_multiset().count(FoundView { file_name: files[f].file_name, line }),
{
    let (states, lines) = choose|
        states: Seq<CacheView>,
        lines: Seq<Result<LineView, Seq<char>>>,
    |
        {
            &&& #[trigger] spans_shown(highlighter, project_dir, states, spans, lines)
            &&& states[0] == before
            &&& states.last() == after
            &&& grouped(lines_found(project_dir, spans, lines), files)
        };
    let n = spans.len() as int;
    let known = |s: SpanView| known_line(before, project_dir, s);
    lemma_known_lines_are_found(highlighter, project_dir, states, spans, lines, n);
    assert(lines.take(n) == lines && spans.take(n) == spans);
    let found = lines_found(project_dir, spans, lines);
    assert(found == spans.map_values(known));
    assert forall|i: int| 0 <= i < spans.len() implies exists|f: int|
        0 <= f < files.len() && (#[trigger] files[f]).file_name == file_path(
            project_dir,
            (#[trigger] spans[i]).file,
        ) by {
        let one = found[i];
        assert(found.contains(one));
        law_every_line_is_shown(found, files, one);
    }
    assert forall|f: int, line: LineView| 0 <= f < files.len() implies #[trigger] files[f].lines.to_multiset().count(
        line,
    ) == spans.map_values(known).to_multiset().count(
        FoundView { file_name: files[f].file_name, line },
    ) by {
        law_every_line_is_shown(found, files, FoundView { file_name: files[f].file_name, line });
    }
}

/// Whether `line` is what comes of showing the line that a span starts on: the line
/// of what is shown for the file, or nothing if there is no such line or the file
/// cannot be shown.
pub open spec fn is_outcome<F: Fn(String, String) -> String>(
    highlighter: F,
    before: CacheView,
    after: CacheView,
    path: Seq<char>,
    span: SpanView,
    line: Option<LineView>,
) -> bool {
    exists|shown: Result<Seq<Seq<char>>, Seq<char>>|
        {
            &&& #[trigger] file_shown(highlighter, before, after, path, shown)
            &&& line is Some <==> (shown matches Ok(lines) && span.row_start < lines.len())
            &&& line matches Some(l) ==> stands_at(l, span) && l.line
                == shown->Ok_0[span.row_start as int]
        }
}

/// Whether `lines` come of showing the lines of spans one after the other.
pub open spec fn are_outcomes<F: Fn(String, String) -> String>(
    highlighter: F,
    project_dir: Seq<char>,
    states: Seq<CacheView>,
    spans: Seq<SpanView>,
    lines: Seq<Option<LineView>>,
) -> bool {
    &&& states.len() == spans.len() + 1
    &&& lines.len() == spans.len()
    &&& forall|i: int|
        #![trigger lines[i]]
        0 <= i < spans.len() ==> is_outcome(
            highlighter,
            states[i],
            states[i + 1],
            file_path(project_dir, spans[i].file),
            spans[i],
            lines[i],
        )
}

/// What comes of each span, with the file that it belongs to.
pub open spec fn by_file(
    project_dir: Seq<char>,
    spans: Seq<SpanView>,
    lines: Seq<Option<LineView>>,
) -> Seq<(Seq<char>, Option<LineView>)> {
    Seq::new(lines.len(), |i: int| (file_path(project_dir, spans[i].file), lines[i]))
}

/// Whether files hold each line that came of a span as often as it came, and there
/// is a file for each such line.
pub open spec fn hold_the_lines(
    project_dir: Seq<char>,
    spans: Seq<SpanView>,
    lines: Seq<Option<LineView>>,
    files: Seq<FileView>,
) -> bool {
    &&& forall|f: int, line: LineView|
        0 <= f < files.len() ==> #[trigger] files[f].lines.to_multiset().count(line) == by_file(
            project_dir,
            spans,
            lines,
        ).to_multiset().count((files[f].file_name, Some(line)))
    &&& forall|i: int|
        0 <= i < lines.len() && (#[trigger] lines[i]) is Some ==> exists|f: int|
            0 <= f < files.len() && (#[trigger] files[f]).file_name == file_path(
                project_dir,
                spans[i].file,
            )
}

spec fn line_or_none(line: Result<LineView, Seq<char>>) -> Option<LineView> {
    match line {
        Ok(line) => Some(line),
        Err(_) => None,
    }
}

proof fn lemma_found_by_file(
    project_dir: Seq<char>,
    spans: Seq<SpanView>,
    lines: Seq<Result<LineView, Seq<char>>>,
    one: FoundView,
)
    ensures
        lines_found(project_dir, spans, lines).to_multiset().count(one) == by_file(
            project_dir,
            spans,
            lines.map_values(|l: Result<LineView, Seq<char>>| line_or_none(l)),
        ).to_multiset().count((one.file_name, Some(one.line))),
    decreases lines.len(),
{
    broadcast use vstd::seq_lib::group_to_multiset_ensures;

    let plain = |l: Result<LineView, Seq<char>>| line_or_none(l);
    let all = by_file(project_dir, spans, lines.map_values(plain));
    let key = (one.file_name, Some(one.line));
    if lines.len() == 0 {
        assert(lines_found(project_dir, spans, lines) == Seq::<FoundView>::empty());
        assert(all == Seq::<(Seq<char>, Option<LineView>)>::empty());
        assert(!all.contains(key));
        assert(!lines_found(project_dir, spans, lines).contains(one));
    } else {
        let front = lines.drop_last();
        lemma_found_by_file(project_dir, spans, front, one);
        let n = lines.len() - 1;
        let last = (file_path(project_dir, spans[n].file), line_or_none(lines[n]));
        let before = by_file(project_dir, spans, front.map_values(plain));
        assert(all == before.push(last));
        let found = lines_found(project_dir, spans, front);
        if let Ok(line) = lines.last() {
            let new = FoundView { file_name: file_path(project_dir, spans[n].file), line };
            assert(lines_found(project_dir, spans, lines) == found.push(new));
            assert(new == one <==> last == key);
        } else {
            assert(lines_found(project_dir, spans, lines) == found);
            assert(last != key);
        }
    }
}

proof fn lemma_found_has(
    project_dir: Seq<char>,
    spans: Seq<SpanView>,
    lines: Seq<Result<LineView, Seq<char>>>,
    i: int,
)
    requires
        0 <= i < lines.len(),
        lines[i] is Ok,
    ensures
        lines_found(project_dir, spans, lines).contains(
            FoundView { file_name: file_path(project_dir, spans[i].file), line: lines[i]->Ok_0 },
        ),
    decreases lines.len(),
{
    let one = FoundView {
        file_name: file_path(project_dir, spans[i].file),
        line: lines[i]->Ok_0,
    };
    let found = lines_found(project_dir, spans, lines);
    if i == lines.len() - 1 {
        assert(found[found.len() - 1] == one);
    } else {
        lemma_found_has(project_dir, spans, lines.drop_last(), i);
        let before = lines_found(project_dir, spans, lines.drop_last());
        let k = choose|k: int| 0 <= k < before.len() && before[k] == one;
        assert(found[k] == one);
    }
}

/// Each span gives the line that it starts on, once, under its file; one whose line
/// cannot be shown is left out, and makes no difference to the others.
pub proof fn law_every_place_is_shown_or_left_out<F: Fn(String, String) -> String>(
    highlighter: F,
    project_dir: Seq<char>,
    before: CacheView,
    after: CacheView,
    spans: Seq<SpanView>,
    files: Seq<FileView>,
)
    requires
        files_shown(highlighter, project_dir, before, after, spans, files),
    ensures
        exists|states: Seq<CacheView>, lines: Seq<Option<LineView>>|
            {
                &&& #[trigger] are_outcomes(highlighter, project_dir, states, spans, lines)
                &&& states[0] == before
                &&& states.last() == after
                &&& hold_the_lines(project_dir, spans, lines, files)
            },
{
    let (states, results) = choose|
        states: Seq<CacheView>,
        lines: Seq<Result<LineView, Seq<char>>>,
    |
        {
            &&& #[trigger] spans_shown(highlighter, project_dir, states, spans, lines)
            &&& states[0] == before
            &&& states.last() == after
            &&& grouped(lines_found(project_dir, spans, lines), files)
        };
    let plain = |l: Result<LineView, Seq<char>>| line_or_none(l);
    let lines = results.map_values(plain);
    let found = lines_found(project_dir, spans, results);
    assert forall|i: int|
        #![trigger lines[i]]
        0 <= i < spans.len() implies is_outcome(
        highlighter,
        states[i],
        states[i + 1],
        file_path(project_dir, spans[i].file),
        spans[i],
        lines[i],
    ) by {
        let result = results[i];
        let shown = lemma_line_of_span(
            highlighter,
            states[i],
            states[i + 1],
            file_path(project_dir, spans[i].file),
            spans[i],
            result,
        );
        assert(lines[i] == line_or_none(result));
    }
    assert(are_outcomes(highlighter, project_dir, states, spans, lines));
    assert forall|f: int, line: LineView| 0 <= f < files.len() implies #[trigger] files[f].lines.to_multiset().count(
        line,
    ) == by_file(project_dir, spans, lines).to_multiset().count((files[f].file_name, Some(line))) by {
        let one = FoundView { file_name: files[f].file_name, line };
        law_every_line_is_shown(found, files, one);
        lemma_found_by_file(project_dir, spans, results, one);
    }
    assert forall|i: int| 0 <= i < lines.len() && (#[trigger] lines[i]) is Some implies exists|f: int|
        0 <= f < files.len() && (#[trigger] files[f]).file_name == file_path(
            project_dir,
            spans[i].file,
        ) by {
        assert(results[i] is Ok);
        lemma_found_has(project_dir, spans, results, i);
        law_every_line_is_shown(
            found,
            files,
            FoundView { file_name: file_path(project_dir, spans[i].file), line: results[i]->Ok_0 },
        );
    }
}

// --------------------------------------------------------------------------
// Definitions
// --------------------------------------------------------------------------

/// Whether a definition is the one at the first of the spans, and what refers to it
/// is what comes of showing the others, so that it stands at one of them.
pub open spec fn is_definition_at<F: Fn(String, String) -> String>(
    highlighter: F,
    project_dir: Seq<char>,
    spans: Seq<SpanView>,
    def: DefView,
) -> bool {
    &&& exists|before: CacheView, after: CacheView| #[trigger]
        files_shown(highlighter, project_dir, before, after, spans.skip(1), def.refs)
    &&& spans.len() > 0
    &&& def.file == file_path(project_dir, spans[0].file)
    &&& stands_at(def.line, spans[0])
    &&& forall|f: int, k: int|
        0 <= f < def.refs.len() && 0 <= k < def.refs[f].lines.len() ==> exists|j: int|
            1 <= j < spans.len() && stands_at(#[trigger] def.refs[f].lines[k], #[trigger] spans[j])
                && def.refs[f].file_name == file_path(project_dir, spans[j].file)
}

proof fn lemma_def_is_at<F: Fn(String, String) -> String>(
    highlighter: F,
    project_dir: Seq<char>,
    before: CacheView,
    after: CacheView,
    spans: Seq<SpanView>,
    def: DefView,
)
    requires
        spans.len() > 0,
        def_shown(highlighter, project_dir, before, after, spans, Ok::<DefView, Seq<char>>(def)),
    ensures
        is_definition_at(highlighter, project_dir, spans, def),
{
    let r = Ok::<DefView, Seq<char>>(def);
    let path = file_path(project_dir, spans[0].file);
    let (mid, line) = choose|mid: CacheView, line: Result<LineView, Seq<char>>|
        {
            &&& #[trigger] span_shown(highlighter, before, mid, path, spans[0], line)
            &&& match line {
                Err(e) => after == mid && r == Err::<DefView, Seq<char>>(e),
                Ok(line) => exists|refs: Seq<FileView>| #[trigger]
                    files_shown(highlighter, project_dir, mid, after, spans.skip(1), refs) && r == Ok::<
                        DefView,
                        Seq<char>,
                    >(DefView { file: path, line, refs }),
            }
        };
    let shown = lemma_line_of_span(highlighter, before, mid, path, spans[0], line);
    let refs = choose|refs: Seq<FileView>| #[trigger]
        files_shown(highlighter, project_dir, mid, after, spans.skip(1), refs) && r == Ok::<
            DefView,
            Seq<char>,
        >(DefView { file: path, line: line->Ok_0, refs });
    law_results_are_places(highlighter, project_dir, mid, after, spans.skip(1), refs);
    assert(files_shown(highlighter, project_dir, mid, after, spans.skip(1), def.refs));
    assert forall|f: int, k: int|
        0 <= f < def.refs.len() && 0 <= k < def.refs[f].lines.len() implies exists|j: int|
        1 <= j < spans.len() && stands_at(#[trigger] def.refs[f].lines[k], #[trigger] spans[j])
            && def.refs[f].file_name == file_path(project_dir, spans[j].file) by {
        assert(refs[f].lines[k] == def.refs[f].lines[k]);
        let rest = spans.skip(1);
        let j = choose|j: int|
            0 <= j < rest.len() && stands_at(refs[f].lines[k], #[trigger] rest[j])
                && refs[f].file_name == file_path(project_dir, rest[j].file);
        assert(spans[j + 1] == rest[j]);
        assert(stands_at(def.refs[f].lines[k], spans[j + 1]));
    }
}

/// Whether the analysis may answer all identifiers with these places.
pub open spec fn are_answered(
    analysis: Analysis,
    ids: Seq<u64>,
    places: Seq<Seq<SpanView>>,
) -> bool {
    &&& places.len() == ids.len()
    &&& forall|i: int|
        #![trigger places[i]]
        0 <= i < ids.len() ==> gives_refs(analysis, ids[i], Some(places[i]))
}

/// Whether definitions are those of the identifiers at the positions `at`, in order,
/// and those are all identifiers that have a place.
pub open spec fn are_definitions_of<F: Fn(String, String) -> String>(
    highlighter: F,
    project_dir: Seq<char>,
    places: Seq<Seq<SpanView>>,
    at: Seq<int>,
    defs: Seq<DefView>,
) -> bool {
    &&& at.len() == defs.len()
    &&& forall|k: int| 0 <= k < at.len() ==> 0 <= #[trigger] at[k] < places.len()
    &&& forall|k: int, m: int| 0 <= k < m < at.len() ==> #[trigger] at[k] < #[trigger] at[m]
    &&& forall|k: int|
        #![trigger defs[k]]
        0 <= k < at.len() ==> is_definition_at(highlighter, project_dir, places[at[k]], defs[k])
    &&& forall|i: int|
        0 <= i < places.len() && (#[trigger] places[i]).len() > 0 ==> at.contains(i)
}

proof fn lemma_definitions_up_to<F: Fn(String, String) -> String>(
    highlighter: F,
    analysis: Analysis,
    project_dir: Seq<char>,
    states: Seq<CacheView>,
    ids: Seq<u64>,
    answers: Seq<Option<Seq<SpanView>>>,
    steps: Seq<Result<Option<DefView>, Seq<char>>>,
    n: int,
) -> (r: (Seq<Seq<SpanView>>, Seq<int>))
    requires
        steps_taken(highlighter, analysis, project_dir, states, ids, answers, steps),
        0 <= n <= steps.len(),
        forall|i: int| 0 <= i < n ==> (#[trigger] steps[i]) is Ok,
    ensures
        are_answered(analysis, ids.take(n), r.0),
        are_definitions_of(highlighter, project_dir, r.0, r.1, found_defs(steps.take(n))),
    decreases n,
{
    if n == 0 {
        assert(steps.take(0).len() == 0);
        (Seq::empty(), Seq::empty())
    } else {
        let (before, at) = lemma_definitions_up_to(
            highlighter,
            analysis,
            project_dir,
            states,
            ids,
            answers,
            steps,
            n - 1,
        );
        let step = steps[n - 1];
        let answer = answers[n - 1];
        assert(def_looked_up(
            highlighter,
            analysis,
            project_dir,
            states[n - 1],
            states[n],
            ids[n - 1],
            answer,
            step,
        ));
        assert(def_found(highlighter, project_dir, states[n - 1], states[n], answer, step));
        let spans = answer->Some_0;
        let places = before.push(spans);
        assert(steps.take(n).drop_last() == steps.take(n - 1));
        assert(steps.take(n).last() == step);
        assert forall|i: int|
            #![trigger places[i]]
            0 <= i < n implies gives_refs(analysis, ids.take(n)[i], Some(places[i])) by {
            if i < n - 1 {
                assert(places[i] == before[i]);
                assert(ids.take(n)[i] == ids.take(n - 1)[i]);
            }
        }
        let old_defs = found_defs(steps.take(n - 1));
        if spans.len() == 0 {
            assert forall|k: int|
                #![trigger old_defs[k]]
                0 <= k < at.len() implies is_definition_at(highlighter, project_dir, places[at[k]], old_defs[k]) by {
                assert(places[at[k]] == before[at[k]]);
            }
            assert forall|i: int| 0 <= i < places.len() && (#[trigger] places[i]).len() > 0 implies at.contains(
                i,
            ) by {
                assert(places[i] == before[i]);
            }
            (places, at)
        } else {
            let found = choose|def: Result<DefView, Seq<char>>| #[trigger]
                def_shown(highlighter, project_dir, states[n - 1], states[n], spans, def) && step
                    == match def {
                    Ok(def) => Ok::<Option<DefView>, Seq<char>>(Some(def)),
                    Err(e) => Err(e),
                };
            let def = found->Ok_0;
            lemma_def_is_at(highlighter, project_dir, states[n - 1], states[n], spans, def);
            let more = at.push(n - 1);
            let defs = old_defs.push(def);
            assert(found_defs(steps.take(n)) == defs);
            assert forall|k: int|
                #![trigger defs[k]]
                0 <= k < more.len() implies is_definition_at(highlighter, project_dir, places[more[k]], defs[k]) by {
                if k < at.len() {
                    assert(defs[k] == old_defs[k]);
                    assert(places[at[k]] == before[at[k]]);
                }
            }
            assert forall|i: int| 0 <= i < places.len() && (#[trigger] places[i]).len() > 0 implies more.contains(
                i,
            ) by {
                if i < n - 1 {
                    assert(places[i] == before[i]);
                    let k = choose|k: int| 0 <= k < at.len() && at[k] == i;
                    assert(more[k] == i);
                } else {
                    assert(more[at.len() as int] == i);
                }
            }
            (places, more)
        }
    }
}

/// A search that does not fail gives one definition for each identifier for which
/// the analysis names a place, in the order of the identifiers, and no other. Each
/// stands at the first of its places, and what refers to it at the others.
pub proof fn law_every_identifier_gives_its_definition<F: Fn(String, String) -> String>(
    highlighter: F,
    analysis: Analysis,
    project_dir: Seq<char>,
    before: CacheView,
    after: CacheView,
    ids: Seq<u64>,
    defs: Seq<DefView>,
)
    requires
        defs_found(
            highlighter,
            analysis,
            project_dir,
            before,
            after,
            ids,
            Ok::<Seq<DefView>, Seq<char>>(defs),
        ),
    ensures
        exists|places: Seq<Seq<SpanView>>, at: Seq<int>| #[trigger]
            are_answered(analysis, ids, places) && #[trigger] are_definitions_of(
                highlighter,
                project_dir,
                places,
                at,
                defs,
            ),
{
    let (states, answers, steps) = choose|
        states: Seq<CacheView>,
        answers: Seq<Option<Seq<SpanView>>>,
        steps: Seq<Result<Option<DefView>, Seq<char>>>,
    |
        {
            &&& #[trigger] steps_taken(
                highlighter,
                analysis,
                project_dir,
                states,
                ids,
                answers,
                steps,
            )
            &&& states[0] == before
            &&& states.last() == after
            &&& Ok::<Seq<DefView>, Seq<char>>(defs)
                == steps_outcome(steps)
        };
    let n = steps.len() as int;
    assert forall|i: int| 0 <= i < n implies (#[trigger] steps[i]) is Ok by {
        if i == n - 1 {
            assert(steps.last() == steps[i]);
        }
    }
    let (places, at) = lemma_definitions_up_to(
        highlighter,
        analysis,
        project_dir,
        states,
        ids,
        answers,
        steps,
        n,
    );
    assert(steps.take(n) == steps && ids.take(n) == ids);
    assert(are_answered(analysis, ids, places) && are_definitions_of(highlighter, project_dir, places, at, defs));
}

/// Where every place of a definition is shown already, the definition is the line at
/// the first place, and each other place gives its line exactly once.
pub proof fn law_known_references_are_all_shown<F: Fn(String, String) -> String>(
    highlighter: F,
    project_dir: Seq<char>,
    before: CacheView,
    after: CacheView,
    spans: Seq<SpanView>,
    r: Result<DefView, Seq<char>>,
)
    requires
        spans.len() > 0,
        def_shown(highlighter, project_dir, before, after, spans, r),
        forall|i: int| 0 <= i < spans.len() ==> is_known(before, project_dir, #[trigger] spans[i]),
    ensures
        after == before,
        r is Ok,
        r->Ok_0.file == known_line(before, project_dir, spans[0]).file_name,
        r->Ok_0.line == known_line(before, project_dir, spans[0]).line,
        forall|f: int, line: LineView|
            0 <= f < r->Ok_0.refs.len() ==> #[trigger] r->Ok_0.refs[f].lines.to_multiset().count(line)
                == spans.skip(1).map_values(
                |s: SpanView| known_line(before, project_dir, s),
            ).to_multiset().count(FoundView { file_name: r->Ok_0.refs[f].file_name, line }),
        forall|i: int|
            1 <= i < spans.len() ==> exists|f: int|
                0 <= f < r->Ok_0.refs.len() && (#[trigger] r->Ok_0.refs[f]).file_name == file_path(
                    project_dir,
                    (#[trigger] spans[i]).file,
                ),
{
    let path = file_path(project_dir, spans[0].file);
    let (mid, line) = choose|mid: CacheView, line: Result<LineView, Seq<char>>|
        {
            &&& #[trigger] span_shown(highlighter, before, mid, path, spans[0], line)
            &&& match line {
                Err(e) => after == mid && r == Err::<DefView, Seq<char>>(e),
                Ok(line) => exists|refs: Seq<FileView>| #[trigger]
                    files_shown(highlighter, project_dir, mid, after, spans.skip(1), refs) && r == Ok::<
                        DefView,
                        Seq<char>,
                    >(DefView { file: path, line, refs }),
            }
        };
    let shown = lemma_line_of_span(highlighter, before, mid, path, spans[0], line);
    assert(is_known(before, project_dir, spans[0]));
    assert(before.is_shown(path));
    assert(mid.shown == before.shown);
    let refs = choose|refs: Seq<FileView>| #[trigger]
        files_shown(highlighter, project_dir, mid, after, spans.skip(1), refs) && r == Ok::<
            DefView,
            Seq<char>,
        >(DefView { file: path, line: line->Ok_0, refs });
    let rest = spans.skip(1);
    assert forall|i: int| 0 <= i < rest.len() implies is_known(before, project_dir, #[trigger] rest[i]) by {
        assert(rest[i] == spans[i + 1]);
    }
    law_every_known_place_is_shown(highlighter, project_dir, mid, after, rest, refs);
    assert forall|i: int| 1 <= i < spans.len() implies exists|f: int|
        0 <= f < r->Ok_0.refs.len() && (#[trigger] r->Ok_0.refs[f]).file_name == file_path(
            project_dir,
            (#[trigger] spans[i]).file,
        ) by {
        assert(rest[i - 1] == spans[i]);
        let f = choose|f: int|
            0 <= f < refs.len() && (#[trigger] refs[f]).file_name == file_path(
                project_dir,
                rest[i - 1].file,
            );
        assert(r->Ok_0.refs[f].file_name == file_path(project_dir, spans[i].file));
    }
}

// --------------------------------------------------------------------------
// Searches in parts
// --------------------------------------------------------------------------

proof fn lemma_found_defs_add_up(
    a: Seq<Result<Option<DefView>, Seq<char>>>,
    b: Seq<Result<Option<DefView>, Seq<char>>>,
)
    ensures
        found_defs(a + b) == found_defs(a) + found_defs(b),
    decreases b.len(),
{
    if b.len() == 0 {
        assert(a + b == a);
    } else {
        lemma_found_defs_add_up(a, b.drop_last());
        assert((a + b).drop_last() == a + b.drop_last());
        assert((a + b).last() == b.last());
    }
}

proof fn lemma_steps_in_part<F: Fn(String, String) -> String>(
    highlighter: F,
    analysis: Analysis,
    project_dir: Seq<char>,
    states: Seq<CacheView>,
    ids: Seq<u64>,
    answers: Seq<Option<Seq<SpanView>>>,
    steps: Seq<Result<Option<DefView>, Seq<char>>>,
    i: int,
    j: int,
)
    requires
        steps_taken(highlighter, analysis, project_dir, states, ids, answers, steps),
        0 <= i <= j <= steps.len(),
    ensures
        steps_taken(
            highlighter,
            analysis,
            project_dir,
            states.subrange(i, j + 1),
            ids.subrange(i, j),
            answers.subrange(i, j),
            steps.subrange(i, j),
        ),
{
    let part = steps.subrange(i, j);
    let st = states.subrange(i, j + 1);
    let id = ids.subrange(i, j);
    let an = answers.subrange(i, j);
    assert forall|k: int|
        #![trigger part[k]]
        0 <= k < part.len() implies def_looked_up(
        highlighter,
        analysis,
        project_dir,
        st[k],
        st[k + 1],
        id[k],
        an[k],
        part[k],
    ) by {
        assert(part[k] == steps[i + k]);
    }
    assert forall|k: int| 0 <= k < part.len() - 1 implies (#[trigger] part[k]) is Ok by {
        assert(part[k] == steps[i + k]);
    }
}

/// Searching for some identifiers and then for others gives what searching for all
/// of them gives: the definitions of the first, and behind them those of the others.
pub proof fn law_searches_add_up<F: Fn(String, String) -> String>(
    highlighter: F,
    analysis: Analysis,
    project_dir: Seq<char>,
    before: CacheView,
    after: CacheView,
    a: Seq<u64>,
    b: Seq<u64>,
    defs: Seq<DefView>,
)
    requires
        defs_found(
            highlighter,
            analysis,
            project_dir,
            before,
            after,
            a + b,
            Ok::<Seq<DefView>, Seq<char>>(defs),
        ),
    ensures
        exists|mid: CacheView, x: Seq<DefView>, y: Seq<DefView>|
            {
                &&& #[trigger] defs_found(
                    highlighter,
                    analysis,
                    project_dir,
                    before,
                    mid,
                    a,
                    Ok::<Seq<DefView>, Seq<char>>(x),
                )
                &&& #[trigger] defs_found(
                    highlighter,
                    analysis,
                    project_dir,
                    mid,
                    after,
                    b,
                    Ok::<Seq<DefView>, Seq<char>>(y),
                )
                &&& defs == x + y
            },
{
    let ids = a + b;
    let (states, answers, steps) = choose|
        states: Seq<CacheView>,
        answers: Seq<Option<Seq<SpanView>>>,
        steps: Seq<Result<Option<DefView>, Seq<char>>>,
    |
        {
            &&& #[trigger] steps_taken(
                highlighter,
                analysis,
                project_dir,
                states,
                ids,
                answers,
                steps,
            )
            &&& states[0] == before
            &&& states.last() == after
            &&& Ok::<Seq<DefView>, Seq<char>>(defs) == steps_outcome(steps)
        };
    let n = a.len() as int;
    let m = ids.len() as int;
    assert(steps.len() == m);
    lemma_steps_in_part(highlighter, analysis, project_dir, states, ids, answers, steps, 0, n);
    lemma_steps_in_part(highlighter, analysis, project_dir, states, ids, answers, steps, n, m);
    assert(ids.subrange(0, n) == a);
    assert(ids.subrange(n, m) == b);
    let front = steps.subrange(0, n);
    let back = steps.subrange(n, m);
    assert(front + back == steps);
    lemma_found_defs_add_up(front, back);
    if n > 0 {
        assert(front.last() == steps[n - 1]);
        if n == m {
            assert(steps.last() == steps[n - 1]);
        }
    }
    if m > n {
        assert(back.last() == steps.last());
    }
    let x = found_defs(front);
    let y = found_defs(back);
    assert(steps_outcome(front) == Ok::<Seq<DefView>, Seq<char>>(x));
    assert(steps_outcome(back) == Ok::<Seq<DefView>, Seq<char>>(y));
    let first = states.subrange(0, n + 1);
    let second = states.subrange(n, m + 1);
    assert(first[0] == before && first.last() == states[n]);
    assert(second[0] == states[n] && second.last() == after);
    assert(defs_found(
        highlighter,
        analysis,
        project_dir,
        before,
        states[n],
        a,
        Ok::<Seq<DefView>, Seq<char>>(x),
    ));
    assert(defs_found(
        highlighter,
        analysis,
        project_dir,
        states[n],
        after,
        b,
        Ok::<Seq<DefView>, Seq<char>>(y),
    ));
}

/// Whether looking up an identifier fails: the analysis knows nothing of it, or the
/// line of its definition cannot be shown.
pub open spec fn lookup_fails<F: Fn(String, String) -> String>(
    highlighter: F,
    analysis: Analysis,
    project_dir: Seq<char>,
    before: CacheView,
    after: CacheView,
    id: u64,
    e: Seq<char>,
) -> bool {
    ||| gives_refs(analysis, id, None) && after == before && e == "Error finding references"@
    ||| exists|spans: Seq<SpanView>, shown: Result<Seq<Seq<char>>, Seq<char>>|
        {
            &&& #[trigger] gives_refs(analysis, id, Some(spans))
            &&& spans.len() > 0
            &&& #[trigger] file_shown(
                highlighter,
                before,
                after,
                file_path(project_dir, spans[0].file),
                shown,
            )
            &&& !(shown matches Ok(lines) && spans[0].row_start < lines.len())
            &&& e == "Error finding text for "@ + span_debug(
                spans[0].file,
                spans[0].row_start,
                spans[0].row_end,
                spans[0].col_start,
                spans[0].col_end,
            )
        }
}

/// A search that fails does so at the first identifier that cannot be looked up, with
/// what went wrong there.
pub proof fn law_search_fails_at_first_failure<F: Fn(String, String) -> String>(
    highlighter: F,
    analysis: Analysis,
    project_dir: Seq<char>,
    before: CacheView,
    after: CacheView,
    ids: Seq<u64>,
    e: Seq<char>,
)
    requires
        defs_found(
            highlighter,
            analysis,
            project_dir,
            before,
            after,
            ids,
            Err::<Seq<DefView>, Seq<char>>(e),
        ),
    ensures
        exists|n: int, mid: CacheView, defs: Seq<DefView>|
            {
                &&& 0 <= n < ids.len()
                &&& #[trigger] defs_found(
                    highlighter,
                    analysis,
                    project_dir,
                    before,
                    mid,
                    ids.take(n),
                    Ok::<Seq<DefView>, Seq<char>>(defs),
                )
                &&& lookup_fails(highlighter, analysis, project_dir, mid, after, ids[n], e)
            },
{
    let (states, answers, steps) = choose|
        states: Seq<CacheView>,
        answers: Seq<Option<Seq<SpanView>>>,
        steps: Seq<Result<Option<DefView>, Seq<char>>>,
    |
        {
            &&& #[trigger] steps_taken(
                highlighter,
                analysis,
                project_dir,
                states,
                ids,
                answers,
                steps,
            )
            &&& states[0] == before
            &&& states.last() == after
            &&& Err::<Seq<DefView>, Seq<char>>(e) == steps_outcome(steps)
        };
    let n = steps.len() - 1;
    lemma_steps_in_part(highlighter, analysis, project_dir, states, ids, answers, steps, 0, n);
    let front = steps.subrange(0, n);
    let first = states.subrange(0, n + 1);
    assert(ids.subrange(0, n) == ids.take(n));
    if n > 0 {
        assert(front.last() == steps[n - 1]);
    }
    assert(steps_outcome(front) == Ok::<Seq<DefView>, Seq<char>>(found_defs(front)));
    assert(first[0] == before && first.last() == states[n]);
    assert(defs_found(
        highlighter,
        analysis,
        project_dir,
        before,
        states[n],
        ids.take(n),
        Ok::<Seq<DefView>, Seq<char>>(found_defs(front)),
    ));
    let step = steps[n];
    assert(step == Err::<Option<DefView>, Seq<char>>(e));
    assert(def_looked_up(
        highlighter,
        analysis,
        project_dir,
        states[n],
        after,
        ids[n],
        answers[n],
        step,
    ));
    if let Some(spans) = answers[n] {
        let path = file_path(project_dir, spans[0].file);
        let def = choose|def: Result<DefView, Seq<char>>| #[trigger]
            def_shown(highlighter, project_dir, states[n], after, spans, def) && step == match def {
                Ok(def) => Ok::<Option<DefView>, Seq<char>>(Some(def)),
                Err(e) => Err(e),
            };
        let (mid, line) = choose|mid: CacheView, line: Result<LineView, Seq<char>>|
            {
                &&& #[trigger] span_shown(highlighter, states[n], mid, path, spans[0], line)
                &&& match line {
                    Err(e) => after == mid && def == Err::<DefView, Seq<char>>(e),
                    Ok(line) => exists|refs: Seq<FileView>| #[trigger]
                        files_shown(highlighter, project_dir, mid, after, spans.skip(1), refs) && def
                            == Ok::<DefView, Seq<char>>(DefView { file: path, line, refs }),
                }
            };
        let shown = lemma_line_of_span(highlighter, states[n], mid, path, spans[0], line);
        assert(gives_refs(analysis, ids[n], Some(spans)));
        assert(file_shown(highlighter, states[n], after, path, shown));
    }
    assert(lookup_fails(highlighter, analysis, project_dir, states[n], after, ids[n], e));
}

/// A search by name is one for the identifiers that the analysis names for it, and
/// gives nothing if the analysis knows no such name.
pub proof fn law_name_stands_for_identifiers<F: Fn(String, String) -> String>(
    highlighter: F,
    analysis: Analysis,
    project_dir: Seq<char>,
    before: CacheView,
    after: CacheView,
    name: Seq<char>,
    r: Result<Seq<DefView>, Seq<char>>,
)
    requires
        name_found(highlighter, analysis, project_dir, before, after, name, r),
    ensures
        ({
            ||| gives_ids(analysis, name, None) && after == before && r == Ok::<
                Seq<DefView>,
                Seq<char>,
            >(Seq::empty())
            ||| exists|ids: Seq<u64>| #[trigger]
                gives_ids(analysis, name, Some(ids)) && defs_found(
                    highlighter,
                    analysis,
                    project_dir,
                    before,
                    after,
                    ids,
                    r,
                )
        }),
{
    let ids = choose|ids: Option<Seq<u64>>| #[trigger]
        gives_ids(analysis, name, ids) && match ids {
            None => after == before && r == Ok::<Seq<DefView>, Seq<char>>(Seq::empty()),
            Some(ids) => defs_found(highlighter, analysis, project_dir, before, after, ids, r),
        };
    if let Some(ids) = ids {
        assert(gives_ids(analysis, name, Some(ids)));
    }
}

/// The implementations of a definition are the places that the analysis names for
/// it; there is an error if it knows nothing of the definition.
pub proof fn law_implementations_are_places<F: Fn(String, String) -> String>(
    highlighter: F,
    analysis: Analysis,
    project_dir: Seq<char>,
    before: CacheView,
    after: CacheView,
    id: u64,
    r: Result<Seq<FileView>, Seq<char>>,
)
    requires
        impls_found(highlighter, analysis, project_dir, before, after, id, r),
    ensures
        match r {
            Ok(files) => exists|spans: Seq<SpanView>|
                {
                    &&& #[trigger] gives_impls(analysis, id, Some(spans))
                    &&& files_shown(highlighter, project_dir, before, after, spans, files)
                    &&& forall|f: int, k: int|
                        0 <= f < files.len() && 0 <= k < files[f].lines.len() ==> exists|j: int|
                            0 <= j < spans.len() && stands_at(
                                #[trigger] files[f].lines[k],
                                #[trigger] spans[j],
                            ) && files[f].file_name == file_path(project_dir, spans[j].file)
                },
            Err(e) => gives_impls(analysis, id, None) && after == before && e == "No impls found"@,
        },
{
    let spans = choose|spans: Option<Seq<SpanView>>| #[trigger]
        gives_impls(analysis, id, spans) && impls_shown(
            highlighter,
            project_dir,
            before,
            after,
            spans,
            r,
        );
    if let Some(spans) = spans {
        assert(gives_impls(analysis, id, Some(spans)));
        law_results_are_places(highlighter, project_dir, before, after, spans, r->Ok_0);
    }
}

// --------------------------------------------------------------------------
// Symbols
// --------------------------------------------------------------------------

/// Whether a symbol lists a definition under a name: its identifier in digits, and
/// the file and line that it stands in, counted from one.
pub open spec fn lists(
    project_dir: Seq<char>,
    symbol: SymbolView,
    id: u64,
    name: Seq<char>,
    span: SpanView,
) -> bool {
    &&& number_of(symbol.id) == Some(id as nat)
    &&& symbol.id == decimal(id as nat)
    &&& symbol.name == name
    &&& symbol.file_name == file_path(project_dir, span.file)
    &&& symbol.line_start == span.row_start + 1
}

proof fn lemma_roots_up_to(
    project_dir: Seq<char>,
    roots: Seq<RootView>,
    defs: Seq<Option<DefinitionView>>,
    packages: Seq<Seq<char>>,
) -> (at: Seq<int>)
    requires
        defs.len() <= roots.len(),
    ensures
        is_list_of_roots(
            project_dir,
            roots,
            defs,
            packages,
            at,
            root_symbols(project_dir, roots, defs, packages),
        ),
    decreases defs.len(),
{
    if defs.len() == 0 {
        Seq::empty()
    } else {
        let n = defs.len() - 1;
        let front = defs.drop_last();
        let at = lemma_roots_up_to(project_dir, roots, front, packages);
        let before = root_symbols(project_dir, roots, front, packages);
        let after = root_symbols(project_dir, roots, defs, packages);
        let more = at.push(n);
        law_number_round_trip(roots[n].id as nat);
        assert forall|k: int| 0 <= k < at.len() implies #[trigger] at[k] < n by {
            assert(is_listed_root(project_dir, roots, front, packages, at[k], before[k]));
        }
        if defs[n] is Some && packages.contains(roots[n].name) {
            assert(after == before.push(after.last()));
            assert forall|k: int|
                #![trigger after[k]]
                0 <= k < after.len() implies is_listed_root(
                project_dir,
                roots,
                defs,
                packages,
                more[k],
                after[k],
            ) by {
                if k < before.len() {
                    assert(after[k] == before[k]);
                    assert(front[at[k]] == defs[at[k]]);
                }
            }
            assert forall|i: int|
                0 <= i < defs.len() && (#[trigger] defs[i]) is Some && packages.contains(
                    roots[i].name,
                ) implies more.contains(i) by {
                if i < n {
                    assert(front[i] == defs[i]);
                    let k = choose|k: int| 0 <= k < at.len() && at[k] == i;
                    assert(more[k] == i);
                } else {
                    assert(more[at.len() as int] == i);
                }
            }
            more
        } else {
            assert(after == before);
            assert forall|k: int|
                #![trigger after[k]]
                0 <= k < after.len() implies is_listed_root(
                project_dir,
                roots,
                defs,
                packages,
                at[k],
                after[k],
            ) by {
                assert(after[k] == before[k]);
                assert(front[at[k]] == defs[at[k]]);
            }
            assert forall|i: int|
                0 <= i < defs.len() && (#[trigger] defs[i]) is Some && packages.contains(
                    roots[i].name,
                ) implies at.contains(i) by {
                assert(front[i] == defs[i]);
            }
            at
        }
    }
}

/// Whether a symbol lists the root at position `i`, which is one of the packages.
pub open spec fn is_listed_root(
    project_dir: Seq<char>,
    roots: Seq<RootView>,
    defs: Seq<Option<DefinitionView>>,
    packages: Seq<Seq<char>>,
    i: int,
    symbol: SymbolView,
) -> bool {
    &&& 0 <= i < defs.len()
    &&& packages.contains(symbol.name)
    &&& (defs[i] matches Some(def) && lists(
        project_dir,
        symbol,
        roots[i].id,
        roots[i].name,
        def.span,
    ))
}

/// Whether symbols list the roots at the positions `at`, in order, and those are all
/// roots that are one of the packages and whose definition is known.
pub open spec fn is_list_of_roots(
    project_dir: Seq<char>,
    roots: Seq<RootView>,
    defs: Seq<Option<DefinitionView>>,
    packages: Seq<Seq<char>>,
    at: Seq<int>,
    symbols: Seq<SymbolView>,
) -> bool {
    &&& at.len() == symbols.len()
    &&& forall|k: int, m: int| 0 <= k < m < at.len() ==> #[trigger] at[k] < #[trigger] at[m]
    &&& forall|k: int|
        #![trigger symbols[k]]
        0 <= k < at.len() ==> is_listed_root(
            project_dir,
            roots,
            defs,
            packages,
            at[k],
            symbols[k],
        )
    &&& forall|i: int|
        0 <= i < defs.len() && (#[trigger] defs[i]) is Some && packages.contains(roots[i].name)
            ==> at.contains(i)
}

/// The roots that are gone through are those that the analysis answers with, none if
/// it has no answer, each with the definition that it answers for it.
pub proof fn law_roots_are_asked_for(
    analysis: Analysis,
    roots: Seq<RootView>,
    defs: Seq<Option<DefinitionView>>,
)
    requires
        roots_known(analysis, roots, defs),
    ensures
        gives_roots(analysis, Some(roots)) || gives_roots(analysis, None),
        roots.len() > 0 ==> gives_roots(analysis, Some(roots)),
        defs.len() == roots.len(),
        forall|i: int|
            0 <= i < roots.len() ==> gives_def(analysis, roots[i].id, #[trigger] defs[i]),
{
}

/// The crate roots that are listed are those whose name is among the packages and
/// whose definition is known: each of them, in their order, and no other.
pub proof fn law_roots_of_packages_are_listed(
    project_dir: Seq<char>,
    roots: Seq<RootView>,
    defs: Seq<Option<DefinitionView>>,
    packages: Seq<Seq<char>>,
)
    requires
        defs.len() == roots.len(),
    ensures
        exists|at: Seq<int>| #[trigger]
            is_list_of_roots(
                project_dir,
                roots,
                defs,
                packages,
                at,
                root_symbols(project_dir, roots, defs, packages),
            ),
        forall|k: int|
            0 <= k < root_symbols(project_dir, roots, defs, packages).len() ==> packages.contains(
                (#[trigger] root_symbols(project_dir, roots, defs, packages)[k]).name,
            ),
        forall|i: int|
            0 <= i < roots.len() && (#[trigger] defs[i]) is Some && packages.contains(roots[i].name)
                ==> exists|k: int|
                0 <= k < root_symbols(project_dir, roots, defs, packages).len() && lists(
                    project_dir,
                    #[trigger] root_symbols(project_dir, roots, defs, packages)[k],
                    roots[i].id,
                    roots[i].name,
                    defs[i]->Some_0.span,
                ),
{
    let symbols = root_symbols(project_dir, roots, defs, packages);
    let at = lemma_roots_up_to(project_dir, roots, defs, packages);
    assert forall|i: int|
        0 <= i < roots.len() && (#[trigger] defs[i]) is Some && packages.contains(
            roots[i].name,
        ) implies exists|k: int|
        0 <= k < symbols.len() && lists(
            project_dir,
            #[trigger] symbols[k],
            roots[i].id,
            roots[i].name,
            defs[i]->Some_0.span,
        ) by {
        let k = choose|k: int| 0 <= k < at.len() && at[k] == i;
        assert(is_listed_root(project_dir, roots, defs, packages, at[k], symbols[k]));
    }
}

/// The definitions inside of another are listed one by one, in their order.
pub proof fn law_children_are_listed(project_dir: Seq<char>, children: Seq<DefinitionView>)
    ensures
        child_symbols(project_dir, children).len() == children.len(),
        forall|i: int|
            0 <= i < children.len() ==> lists(
                project_dir,
                #[trigger] child_symbols(project_dir, children)[i],
                children[i].id,
                children[i].name,
                children[i].span,
            ),
{
    assert forall|i: int| 0 <= i < children.len() implies lists(
        project_dir,
        #[trigger] child_symbols(project_dir, children)[i],
        children[i].id,
        children[i].name,
        children[i].span,
    ) by {
        law_number_round_trip(children[i].id as nat);
    }
}

} // verus!
