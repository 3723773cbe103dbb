//! The outcomes of searches: what may come back, given what the analysis answers
//! and what the files hold.

use vstd::prelude::*;

use crate::file_controller::analysis::{
    gives_def, gives_ids, gives_impls, gives_refs, gives_roots, DefinitionView, RootView,
};
use crate::file_controller::analysis::Analysis;
use crate::file_controller::file_cache::{file_shown, CacheView};
use crate::file_controller::results::{
    grouped, line_at, DefView, FileView, FoundView, LineView, SymbolView,
};
use crate::file_controller::results::{DefResult, FindResult, LineResult, SearchResult};
use crate::file_controller::span::{span_debug, SpanView};
use crate::number::decimal;
use crate::path::{is_below, path_below, path_components};

verus! {

/// The path under which a file is shown: relative to the project directory if
/// it lies there.
pub open spec fn file_path(project_dir: Seq<char>, file: Seq<char>) -> Seq<char> {
    if is_below(file, project_dir) {
        path_below(file, project_dir)
    } else {
        file
    }
}

/// The line at `row`, counted from zero, given what is shown for its file: `None`
/// if fewer lines are shown.
pub open spec fn line_of(shown: Result<Seq<Seq<char>>, Seq<char>>, row: nat) -> Result<
    Option<Seq<char>>,
    Seq<char>,
> {
    match shown {
        Ok(lines) => if row < lines.len() {
            Ok(Some(lines[row as int]))
        } else {
            Ok(None)
        },
        Err(e) => Err(e),
    }
}

/// Whether there is a line at `row`, counted from zero, whatever lines may be shown
/// for a file.
pub open spec fn has_row<F: Fn(String, String) -> String>(
    highlighter: F,
    cache: CacheView,
    path: Seq<char>,
    row: nat,
) -> bool {
    forall|after: CacheView, shown: Result<Seq<Seq<char>>, Seq<char>>| #[trigger]
        file_shown(highlighter, cache, after, path, shown) ==> line_of(shown, row)
            != Ok::<Option<Seq<char>>, Seq<char>>(None)
}

/// The outcome of asking for one line of what is shown for a file.
pub open spec fn line_shown<F: Fn(String, String) -> String>(
    highlighter: F,
    before: CacheView,
    after: CacheView,
    path: Seq<char>,
    row: nat,
    r: Result<Option<Seq<char>>, Seq<char>>,
) -> bool {
    exists|shown: Result<Seq<Seq<char>>, Seq<char>>| #[trigger]
        file_shown(highlighter, before, after, path, shown) && r == line_of(shown, row)
}

/// The message for a span whose line cannot be shown.
pub open spec fn no_text_for(span: SpanView) -> Seq<char> {
    "Error finding text for "@ + span_debug(
        span.file,
        span.row_start,
        span.row_end,
        span.col_start,
        span.col_end,
    )
}

/// What is made of a span, given the line that it starts on, if there is one.
pub open spec fn span_line(span: SpanView, line: Result<Option<Seq<char>>, Seq<char>>) -> Result<
    LineView,
    Seq<char>,
> {
    match line {
        Ok(Some(text)) => Ok(line_at(span, text)),
        _ => Err(no_text_for(span)),
    }
}

/// The outcome of showing the line that a span starts on.
pub open spec fn span_shown<F: Fn(String, String) -> String>(
    highlighter: F,
    before: CacheView,
    after: CacheView,
    path: Seq<char>,
    span: SpanView,
    r: Result<LineView, Seq<char>>,
) -> bool {
    exists|line: Result<Option<Seq<char>>, Seq<char>>| #[trigger]
        line_shown(highlighter, before, after, path, span.row_start as nat, line) && r == span_line(
            span,
            line,
        )
}

/// The lines found, given what came of showing each span: those that cannot be
/// shown are left out.
pub open spec fn lines_found(
    project_dir: Seq<char>,
    spans: Seq<SpanView>,
    lines: Seq<Result<LineView, Seq<char>>>,
) -> Seq<FoundView>
    decreases lines.len(),
{
    if lines.len() == 0 {
        Seq::empty()
    } else {
        let before = lines_found(project_dir, spans, lines.drop_last());
        match lines.last() {
            Ok(line) => before.push(
                FoundView {
                    file_name: file_path(project_dir, spans[lines.len() - 1].file),
                    line,
                },
            ),
            Err(_) => before,
        }
    }
}

/// Whether showing spans one after the other, from the first state of the cache
/// to the last, gives `lines`.
pub open spec fn spans_shown<F: Fn(String, String) -> String>(
    highlighter: F,
    project_dir: Seq<char>,
    states: Seq<CacheView>,
    spans: Seq<SpanView>,
    lines: Seq<Result<LineView, Seq<char>>>,
) -> bool {
    &&& lines.len() == spans.len()
    &&& states.len() == spans.len() + 1
    &&& forall|i: int|
        #![trigger lines[i]]
        0 <= i < spans.len() ==> span_shown(
            highlighter,
            states[i],
            states[i + 1],
            file_path(project_dir, spans[i].file),
            spans[i],
            lines[i],
        )
}

/// The outcome of showing spans by file.
pub open spec fn files_shown<F: Fn(String, String) -> String>(
    highlighter: F,
    project_dir: Seq<char>,
    before: CacheView,
    after: CacheView,
    spans: Seq<SpanView>,
    files: Seq<FileView>,
) -> bool {
    exists|states: Seq<CacheView>, lines: Seq<Result<LineView, Seq<char>>>|
        {
            &&& #[trigger] spans_shown(highlighter, project_dir, states, spans, lines)
            &&& states[0] == before
            &&& states.last() == after
            &&& grouped(lines_found(project_dir, spans, lines), files)
        }
}

/// The outcome of showing a definition, the first of the spans, with the places
/// that refer to it.
pub open spec fn def_shown<F: Fn(String, String) -> String>(
    highlighter: F,
    project_dir: Seq<char>,
    before: CacheView,
    after: CacheView,
    spans: Seq<SpanView>,
    r: Result<DefView, Seq<char>>,
) -> bool {
    let path = file_path(project_dir, spans[0].file);
    exists|mid: CacheView, line: Result<LineView, Seq<char>>|
        {
            &&& #[trigger] span_shown(highlighter, before, mid, path, spans[0], line)
            &&& match line {
                Err(e) => after == mid && r == Err::<DefView, Seq<char>>(e),
                Ok(line) => exists|refs: Seq<FileView>| #[trigger]
                    files_shown(highlighter, project_dir, mid, after, spans.skip(1), refs) && r == Ok::<
                        DefView,
                        Seq<char>,
                    >(DefView { file: path, line, refs }),
            }
        }
}

/// The message for a definition of which the analysis knows nothing.
pub open spec fn no_references() -> Seq<char> {
    "Error finding references"@
}

/// The outcome of one step of a search, given the places that the analysis names
/// for a definition. A definition without places is passed over.
pub open spec fn def_found<F: Fn(String, String) -> String>(
    highlighter: F,
    project_dir: Seq<char>,
    before: CacheView,
    after: CacheView,
    spans: Option<Seq<SpanView>>,
    r: Result<Option<DefView>, Seq<char>>,
) -> bool {
    match spans {
        None => after == before && r == Err::<Option<DefView>, Seq<char>>(no_references()),
        Some(spans) => if spans.len() == 0 {
            after == before && r == Ok::<Option<DefView>, Seq<char>>(None)
        } else {
            exists|def: Result<DefView, Seq<char>>| #[trigger]
                def_shown(highlighter, project_dir, before, after, spans, def) && r == match def {
                    Ok(def) => Ok::<Option<DefView>, Seq<char>>(Some(def)),
                    Err(e) => Err(e),
                }
        },
    }
}

/// The outcome of looking up one identifier, given what the analysis answers.
pub open spec fn def_looked_up<F: Fn(String, String) -> String>(
    highlighter: F,
    analysis: Analysis,
    project_dir: Seq<char>,
    before: CacheView,
    after: CacheView,
    id: u64,
    spans: Option<Seq<SpanView>>,
    r: Result<Option<DefView>, Seq<char>>,
) -> bool {
    &&& gives_refs(analysis, id, spans)
    &&& def_found(highlighter, project_dir, before, after, spans, r)
}

/// The definitions found, in order, without those that were passed over.
pub open spec fn found_defs(steps: Seq<Result<Option<DefView>, Seq<char>>>) -> Seq<DefView>
    decreases steps.len(),
{
    if steps.len() == 0 {
        Seq::empty()
    } else {
        match steps.last() {
            Ok(Some(def)) => found_defs(steps.drop_last()).push(def),
            _ => found_defs(steps.drop_last()),
        }
    }
}

/// Whether looking up identifiers one after the other, from the first state of
/// the cache to the last, goes through `steps`. It stops at the first error.
pub open spec fn steps_taken<F: Fn(String, String) -> String>(
    highlighter: F,
    analysis: Analysis,
    project_dir: Seq<char>,
    states: Seq<CacheView>,
    ids: Seq<u64>,
    answers: Seq<Option<Seq<SpanView>>>,
    steps: Seq<Result<Option<DefView>, Seq<char>>>,
) -> bool {
    &&& steps.len() <= ids.len()
    &&& answers.len() == steps.len()
    &&& states.len() == steps.len() + 1
    &&& forall|i: int|
        #![trigger steps[i]]
        0 <= i < steps.len() ==> def_looked_up(
            highlighter,
            analysis,
            project_dir,
            states[i],
            states[i + 1],
            ids[i],
            answers[i],
            steps[i],
        )
    &&& forall|i: int| 0 <= i < steps.len() - 1 ==> (#[trigger] steps[i]) is Ok
    &&& steps.len() < ids.len() ==> steps.len() > 0 && steps.last() is Err
}

/// What a search gives, given the steps that it took: the first error, or the
/// definitions found.
pub open spec fn steps_outcome(steps: Seq<Result<Option<DefView>, Seq<char>>>) -> Result<
    Seq<DefView>,
    Seq<char>,
> {
    if steps.len() > 0 && steps.last() is Err {
        Err(steps.last()->Err_0)
    } else {
        Ok(found_defs(steps))
    }
}

/// The outcome of a search for definitions by their identifiers.
pub open spec fn defs_found<F: Fn(String, String) -> String>(
    highlighter: F,
    analysis: Analysis,
    project_dir: Seq<char>,
    before: CacheView,
    after: CacheView,
    ids: Seq<u64>,
    r: Result<Seq<DefView>, Seq<char>>,
) -> bool {
    exists|
        states: Seq<CacheView>,
        answers: Seq<Option<Seq<SpanView>>>,
        steps: Seq<Result<Option<DefView>, Seq<char>>>,
    |
        {
            &&& #[trigger] steps_taken(
                highlighter,
                analysis,
                project_dir,
                states,
                ids,
                answers,
                steps,
            )
            &&& states[0] == before
            &&& states.last() == after
            &&& r == steps_outcome(steps)
        }
}

/// The outcome of a search for the definitions of a name. A name that the
/// analysis cannot look up has none.
pub open spec fn name_found<F: Fn(String, String) -> String>(
    highlighter: F,
    analysis: Analysis,
    project_dir: Seq<char>,
    before: CacheView,
    after: CacheView,
    name: Seq<char>,
    r: Result<Seq<DefView>, Seq<char>>,
) -> bool {
    exists|ids: Option<Seq<u64>>| #[trigger]
        gives_ids(analysis, name, ids) && match ids {
            None => after == before && r == Ok::<Seq<DefView>, Seq<char>>(Seq::empty()),
            Some(ids) => defs_found(highlighter, analysis, project_dir, before, after, ids, r),
        }
}

/// The message for a definition without implementations.
pub open spec fn no_impls() -> Seq<char> {
    "No impls found"@
}

/// The outcome of a search for implementations, given the places that the
/// analysis names.
pub open spec fn impls_shown<F: Fn(String, String) -> String>(
    highlighter: F,
    project_dir: Seq<char>,
    before: CacheView,
    after: CacheView,
    spans: Option<Seq<SpanView>>,
    r: Result<Seq<FileView>, Seq<char>>,
) -> bool {
    match spans {
        None => after == before && r == Err::<Seq<FileView>, Seq<char>>(no_impls()),
        Some(spans) => r is Ok && files_shown(
            highlighter,
            project_dir,
            before,
            after,
            spans,
            r->Ok_0,
        ),
    }
}

/// The outcome of a search for the implementations of a definition.
pub open spec fn impls_found<F: Fn(String, String) -> String>(
    highlighter: F,
    analysis: Analysis,
    project_dir: Seq<char>,
    before: CacheView,
    after: CacheView,
    id: u64,
    r: Result<Seq<FileView>, Seq<char>>,
) -> bool {
    exists|spans: Option<Seq<SpanView>>| #[trigger]
        gives_impls(analysis, id, spans) && impls_shown(
            highlighter,
            project_dir,
            before,
            after,
            spans,
            r,
        )
}

/// A definition as it is listed, under a name.
pub open spec fn symbol(
    project_dir: Seq<char>,
    id: u64,
    name: Seq<char>,
    span: SpanView,
) -> SymbolView {
    SymbolView {
        id: decimal(id as nat),
        name,
        file_name: file_path(project_dir, span.file),
        line_start: (span.row_start + 1) as u64,
    }
}

/// The crate roots that are listed, given their definitions: those whose
/// definition is known and whose crate is one of the packages.
pub open spec fn root_symbols(
    project_dir: Seq<char>,
    roots: Seq<RootView>,
    defs: Seq<Option<DefinitionView>>,
    packages: Seq<Seq<char>>,
) -> Seq<SymbolView>
    decreases defs.len(),
{
    if defs.len() == 0 {
        Seq::empty()
    } else {
        let root = roots[defs.len() - 1];
        let before = root_symbols(project_dir, roots, defs.drop_last(), packages);
        match defs.last() {
            Some(def) => if packages.contains(root.name) {
                before.push(symbol(project_dir, root.id, root.name, def.span))
            } else {
                before
            },
            None => before,
        }
    }
}

/// Whether the analysis may answer with these roots, none where it has no
/// answer, and with these definitions of them.
pub open spec fn roots_known(
    analysis: Analysis,
    roots: Seq<RootView>,
    defs: Seq<Option<DefinitionView>>,
) -> bool {
    &&& gives_roots(analysis, Some(roots)) || (gives_roots(analysis, None) && roots.len() == 0)
    &&& defs.len() == roots.len()
    &&& forall|i: int|
        #![trigger defs[i]]
        0 <= i < defs.len() ==> gives_def(analysis, roots[i].id, defs[i])
}

/// The definitions inside of another as they are listed.
pub open spec fn child_symbols(project_dir: Seq<char>, children: Seq<DefinitionView>) -> Seq<SymbolView> {
    children.map_values(
        |def: DefinitionView| symbol(project_dir, def.id, def.name, def.span),
    )
}

/// The view of the files in a result.
pub open spec fn find_view(r: Result<FindResult, String>) -> Result<Seq<FileView>, Seq<char>> {
    match r {
        Ok(found) => Ok(found.results.deep_view()),
        Err(e) => Err(e@),
    }
}

/// The view of the definitions in a result.
pub open spec fn search_view(r: Result<SearchResult, String>) -> Result<Seq<DefView>, Seq<char>> {
    match r {
        Ok(found) => Ok(found.defs.deep_view()),
        Err(e) => Err(e@),
    }
}

/// The view of the definition in a result.
pub open spec fn def_result_view(r: Result<DefResult, String>) -> Result<DefView, Seq<char>> {
    match r {
        Ok(def) => Ok(def.deep_view()),
        Err(e) => Err(e@),
    }
}

/// The view of a step of a search.
pub open spec fn step_view(r: Result<Option<DefResult>, String>) -> Result<Option<DefView>, Seq<char>> {
    match r {
        Ok(Some(def)) => Ok(Some(def.deep_view())),
        Ok(None) => Ok(None),
        Err(e) => Err(e@),
    }
}

/// The view of a line of a file that has it.
pub open spec fn some_line_view(r: Result<String, String>) -> Result<Option<Seq<char>>, Seq<char>> {
    match r {
        Ok(line) => Ok(Some(line@)),
        Err(e) => Err(e@),
    }
}

/// The view of a line of a file that may have it.
pub open spec fn maybe_line_view(r: Result<Option<String>, String>) -> Result<
    Option<Seq<char>>,
    Seq<char>,
> {
    match r {
        Ok(line) => Ok(line.deep_view()),
        Err(e) => Err(e@),
    }
}

/// The view of the line in a result.
pub open spec fn line_result_view(r: Result<LineResult, String>) -> Result<LineView, Seq<char>> {
    match r {
        Ok(line) => Ok(line.deep_view()),
        Err(e) => Err(e@),
    }
}

/// The views of what searches give are the values that they hold, or their errors.
pub proof fn law_outcome_views_show_everything(
    found: Result<FindResult, String>,
    search: Result<SearchResult, String>,
    def: Result<DefResult, String>,
    line: Result<LineResult, String>,
    text: Result<Option<String>, String>,
)
    ensures
        match found {
            Ok(r) => find_view(found) == Ok::<Seq<FileView>, Seq<char>>(r.results.deep_view()),
            Err(e) => find_view(found) == Err::<Seq<FileView>, Seq<char>>(e@),
        },
        match search {
            Ok(r) => search_view(search) == Ok::<Seq<DefView>, Seq<char>>(r.defs.deep_view()),
            Err(e) => search_view(search) == Err::<Seq<DefView>, Seq<char>>(e@),
        },
        match def {
            Ok(r) => def_result_view(def) == Ok::<DefView, Seq<char>>(r.deep_view()),
            Err(e) => def_result_view(def) == Err::<DefView, Seq<char>>(e@),
        },
        match line {
            Ok(r) => line_result_view(line) == Ok::<LineView, Seq<char>>(r.deep_view()),
            Err(e) => line_result_view(line) == Err::<LineView, Seq<char>>(e@),
        },
        match text {
            Ok(Some(s)) => maybe_line_view(text) == Ok::<Option<Seq<char>>, Seq<char>>(Some(s@))
                && some_line_view(Ok(s)) == Ok::<Option<Seq<char>>, Seq<char>>(Some(s@)),
            Ok(None) => maybe_line_view(text) == Ok::<Option<Seq<char>>, Seq<char>>(None),
            Err(e) => maybe_line_view(text) == Err::<Option<Seq<char>>, Seq<char>>(e@)
                && some_line_view(Err(e)) == Err::<Option<Seq<char>>, Seq<char>>(e@),
        },
{
}

/// The line at a row is the one that is shown there, and there is none behind the
/// last line.
pub proof fn law_line_stands_at_its_row(lines: Seq<Seq<char>>, row: nat, e: Seq<char>)
    ensures
        row < lines.len() ==> line_of(Ok(lines), row) == Ok::<Option<Seq<char>>, Seq<char>>(
            Some(lines[row as int]),
        ),
        row >= lines.len() ==> line_of(Ok(lines), row) == Ok::<Option<Seq<char>>, Seq<char>>(None),
        line_of(Err(e), row) == Err::<Option<Seq<char>>, Seq<char>>(e),
{
}

/// A file under the project directory is shown by what is left of its path there,
/// and any other by its path.
pub proof fn law_shown_path_is_relative(project_dir: Seq<char>, file: Seq<char>)
    ensures
        path_components(project_dir).is_prefix_of(path_components(file)) ==> file_path(
            project_dir,
            file,
        ) == path_below(file, project_dir),
        !path_components(project_dir).is_prefix_of(path_components(file)) ==> file_path(
            project_dir,
            file,
        ) == file,
{
}

/// A row of lines that are shown already is there.
pub proof fn law_shown_row_is_there<F: Fn(String, String) -> String>(
    highlighter: F,
    cache: CacheView,
    path: Seq<char>,
    row: nat,
)
    requires
        cache.files.contains_key(path_components(path)),
        cache.files[path_components(path)] is Text,
        cache.shown.contains_key(path_components(path)),
        row < cache.shown[path_components(path)].len(),
    ensures
        has_row(highlighter, cache, path, row),
{
    assert(cache.is_shown(path));
}

} // verus!
