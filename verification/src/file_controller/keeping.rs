//! What searches leave as it was.

use vstd::prelude::*;

use crate::file_controller::analysis::gives_ids;
use crate::file_controller::analysis::Analysis;
use crate::file_controller::file_cache::{file_shown, CacheView};
use crate::file_controller::outcome::{
    def_found, def_shown, defs_found, file_path, files_shown, impls_found, impls_shown, line_shown,
    name_found, span_shown, spans_shown, steps_taken,
};
use crate::file_controller::results::{DefView, FileView, LineView};
use crate::file_controller::span::SpanView;
use crate::path::path_components;

verus! {

/// Whether the lines shown for a file are kept.
pub open spec fn keeps_lines(before: CacheView, after: CacheView, file: Seq<Seq<char>>) -> bool {
    before.shown.contains_key(file) && before.shown[file].len() > 0 ==> after.shown.contains_key(file)
        && after.shown[file] == before.shown[file]
}

/// Whether a cache keeps what it holds from one state to another: each file, and
/// the lines shown for it. Lines are still kept for held files alone.
pub open spec fn keeps(before: CacheView, after: CacheView) -> bool {
    &&& before.wf() ==> after.wf()
    &&& before.files.submap_of(after.files)
    &&& forall|file: Seq<Seq<char>>| #[trigger] keeps_lines(before, after, file)
}

proof fn lemma_keeps_transitive(a: CacheView, b: CacheView, c: CacheView)
    requires
        keeps(a, b),
        keeps(b, c),
    ensures
        keeps(a, c),
{
    assert forall|file: Seq<Seq<char>>| #[trigger] keeps_lines(a, c, file) by {
        assert(keeps_lines(a, b, file) && keeps_lines(b, c, file));
    }
    vstd::map_lib::lemma_submap_of_trans(a.files, b.files, c.files);
}

proof fn lemma_trace_keeps(states: Seq<CacheView>)
    requires
        states.len() > 0,
        forall|i: int| 0 <= i < states.len() - 1 ==> keeps(states[i], #[trigger] states[i + 1]),
    ensures
        keeps(states[0], states.last()),
    decreases states.len(),
{
    if states.len() > 1 {
        let front = states.drop_last();
        assert forall|i: int| 0 <= i < front.len() - 1 implies keeps(
            front[i],
            #[trigger] front[i + 1],
        ) by {
            assert(keeps(states[i], states[i + 1]));
        }
        lemma_trace_keeps(front);
        let n = states.len() - 2;
        assert(keeps(states[n], states[n + 1]));
        lemma_keeps_transitive(states[0], front.last(), states.last());
    }
}

/// Showing a file keeps what the cache holds.
pub proof fn law_showing_a_file_keeps<F: Fn(String, String) -> String>(
    highlighter: F,
    before: CacheView,
    after: CacheView,
    path: Seq<char>,
    r: Result<Seq<Seq<char>>, Seq<char>>,
)
    requires
        file_shown(highlighter, before, after, path, r),
    ensures
        keeps(before, after),
{
    assert(before.shown.contains_key(path_components(path)) ==> before.is_shown(path)
        || before.shown[path_components(path)].len() == 0);
}

proof fn lemma_span_keeps<F: Fn(String, String) -> String>(
    highlighter: F,
    before: CacheView,
    after: CacheView,
    path: Seq<char>,
    span: SpanView,
    r: Result<LineView, Seq<char>>,
)
    requires
        span_shown(highlighter, before, after, path, span, r),
    ensures
        keeps(before, after),
{
    let line = choose|line: Result<Option<Seq<char>>, Seq<char>>| #[trigger]
        line_shown(highlighter, before, after, path, span.row_start as nat, line);
    assert(line_shown(highlighter, before, after, path, span.row_start as nat, line));
    let shown = choose|shown: Result<Seq<Seq<char>>, Seq<char>>| #[trigger]
        file_shown(highlighter, before, after, path, shown);
    assert(file_shown(highlighter, before, after, path, shown));
    law_showing_a_file_keeps(highlighter, before, after, path, shown);
}

proof fn lemma_files_keep<F: Fn(String, String) -> String>(
    highlighter: F,
    project_dir: Seq<char>,
    before: CacheView,
    after: CacheView,
    spans: Seq<SpanView>,
    files: Seq<FileView>,
)
    requires
        files_shown(highlighter, project_dir, before, after, spans, files),
    ensures
        keeps(before, after),
{
    let (states, lines) = choose|
        states: Seq<CacheView>,
        lines: Seq<Result<LineView, Seq<char>>>,
    |
        {
            &&& #[trigger] spans_shown(highlighter, project_dir, states, spans, lines)
            &&& states[0] == before
            &&& states.last() == after
        };
    assert forall|i: int| 0 <= i < states.len() - 1 implies keeps(
        states[i],
        #[trigger] states[i + 1],
    ) by {
        let line = lines[i];
        lemma_span_keeps(
            highlighter,
            states[i],
            states[i + 1],
            file_path(project_dir, spans[i].file),
            spans[i],
            line,
        );
    }
    lemma_trace_keeps(states);
}

proof fn lemma_def_keeps<F: Fn(String, String) -> String>(
    highlighter: F,
    project_dir: Seq<char>,
    before: CacheView,
    after: CacheView,
    spans: Seq<SpanView>,
    r: Result<DefView, Seq<char>>,
)
    requires
        def_shown(highlighter, project_dir, before, after, spans, r),
    ensures
        keeps(before, after),
{
    let path = file_path(project_dir, spans[0].file);
    let (mid, line) = choose|mid: CacheView, line: Result<LineView, Seq<char>>|
        {
            &&& #[trigger] span_shown(highlighter, before, mid, path, spans[0], line)
            &&& match line {
                Err(e) => after == mid && r == Err::<DefView, Seq<char>>(e),
                Ok(line) => exists|refs: Seq<FileView>| #[trigger]
                    files_shown(highlighter, project_dir, mid, after, spans.skip(1), refs) && r == Ok::<
                        DefView,
                        Seq<char>,
                    >(DefView { file: path, line, refs }),
            }
        };
    lemma_span_keeps(highlighter, before, mid, path, spans[0], line);
    if line is Ok {
        let refs = choose|refs: Seq<FileView>| #[trigger]
            files_shown(highlighter, project_dir, mid, after, spans.skip(1), refs);
        lemma_files_keep(highlighter, project_dir, mid, after, spans.skip(1), refs);
        lemma_keeps_transitive(before, mid, after);
    }
}

/// A search by identifiers keeps what the cache holds.
pub proof fn law_search_by_id_keeps<F: Fn(String, String) -> String>(
    highlighter: F,
    analysis: Analysis,
    project_dir: Seq<char>,
    before: CacheView,
    after: CacheView,
    ids: Seq<u64>,
    r: Result<Seq<DefView>, Seq<char>>,
)
    requires
        defs_found(highlighter, analysis, project_dir, before, after, ids, r),
    ensures
        keeps(before, after),
{
    let (states, answers, steps) = choose|
        states: Seq<CacheView>,
        answers: Seq<Option<Seq<SpanView>>>,
        steps: Seq<Result<Option<DefView>, Seq<char>>>,
    |
        {
            &&& #[trigger] steps_taken(
                highlighter,
                analysis,
                project_dir,
                states,
                ids,
                answers,
                steps,
            )
            &&& states[0] == before
            &&& states.last() == after
        };
    assert forall|i: int| 0 <= i < states.len() - 1 implies keeps(
        states[i],
        #[trigger] states[i + 1],
    ) by {
        let step = steps[i];
        assert(def_found(highlighter, project_dir, states[i], states[i + 1], answers[i], step));
        if let Some(spans) = answers[i] {
            if spans.len() > 0 {
                let def = choose|def: Result<DefView, Seq<char>>| #[trigger]
                    def_shown(highlighter, project_dir, states[i], states[i + 1], spans, def);
                lemma_def_keeps(highlighter, project_dir, states[i], states[i + 1], spans, def);
            }
        }
    }
    lemma_trace_keeps(states);
}

/// A search by name keeps what the cache holds.
pub proof fn law_search_by_name_keeps<F: Fn(String, String) -> String>(
    highlighter: F,
    analysis: Analysis,
    project_dir: Seq<char>,
    before: CacheView,
    after: CacheView,
    name: Seq<char>,
    r: Result<Seq<DefView>, Seq<char>>,
)
    requires
        name_found(highlighter, analysis, project_dir, before, after, name, r),
    ensures
        keeps(before, after),
{
    let ids = choose|ids: Option<Seq<u64>>| #[trigger]
        gives_ids(analysis, name, ids) && match ids {
            None => after == before,
            Some(ids) => defs_found(highlighter, analysis, project_dir, before, after, ids, r),
        };
    if let Some(ids) = ids {
        law_search_by_id_keeps(highlighter, analysis, project_dir, before, after, ids, r);
    }
}

/// A search for implementations keeps what the cache holds.
pub proof fn law_search_for_impls_keeps<F: Fn(String, String) -> String>(
    highlighter: F,
    analysis: Analysis,
    project_dir: Seq<char>,
    before: CacheView,
    after: CacheView,
    id: u64,
    r: Result<Seq<FileView>, Seq<char>>,
)
    requires
        impls_found(highlighter, analysis, project_dir, before, after, id, r),
    ensures
        keeps(before, after),
{
    let spans = choose|spans: Option<Seq<SpanView>>| #[trigger]
        impls_shown(highlighter, project_dir, before, after, spans, r);
    if let Some(spans) = spans {
        lemma_files_keep(highlighter, project_dir, before, after, spans, r->Ok_0);
    }
}

} // verus!
