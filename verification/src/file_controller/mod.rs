//! Files, and what the analysis of a project knows of them.

use vstd::prelude::*;

use crate::file_controller::analysis::{
    children_view, gives_children, gives_def, gives_ids, gives_impls, gives_roots, DefinitionView,
    RootView,
};
use crate::file_controller::analysis::{Analysis, Definition};
use crate::file_controller::file_cache::{
    file_shown, is_total, law_shown_lines_are_kept, lines_read, lines_view, text_view, CacheView,
};
use crate::file_controller::file_cache::Cache;
use crate::file_controller::outcome::{
    child_symbols, def_looked_up, def_result_view, def_shown, defs_found, file_path, files_shown,
    find_view, found_defs, has_row, impls_found, impls_shown, line_result_view, line_shown,
    lines_found, maybe_line_view, name_found, root_symbols, roots_known, search_view,
    some_line_view, span_line, span_shown, spans_shown, step_view, steps_taken, symbol,
};
use crate::file_controller::results::{
    add_line, DefResult, FileResult, FindResult, LineResult, SearchResult, SymbolResult,
};
use crate::file_controller::results::{grouped, DefView, LineView};
use crate::file_controller::span::{span_debug_text, Span, SpanView};
use crate::number::u64_text;
use crate::path::{path_components, strip_prefix};
use crate::text::{joined, same_text};

pub mod analysis;
pub mod answers;
pub mod file_cache;
pub mod keeping;
pub mod outcome;
pub mod results;
pub mod showing;
pub mod span;
pub mod steadiness;
pub mod vfs;

verus! {

/// What highlighting a file draws on: the analysis of the project, and the
/// directory that it lies in.
pub struct Highlighter {
    pub analysis: Analysis,
    pub project_dir: String,
}

/// Finds things in the files of a project.
pub struct FileController {
    pub highlighter: Highlighter,
    pub cache: Cache,
}

impl FileController {
    /// A controller for the project in a directory, with nothing known of it
    /// yet.
    pub fn new(project_dir: String) -> (r: FileController)
        ensures
            r.highlighter.project_dir == project_dir,
            r.cache@ == CacheView::empty(),
    {
        FileController {
            highlighter: Highlighter { analysis: Analysis::new(), project_dir },
            cache: Cache::new(),
        }
    }

    /// The text of the lines `line_start..line_end` of a file, counted from zero.
    pub fn get_lines(&mut self, path: &str, line_start: u32, line_end: u32) -> (r: Result<
        String,
        String,
    >)
        ensures
            lines_read(
                old(self).cache@,
                final(self).cache@,
                path@,
                line_start as nat,
                line_end as nat,
                text_view(r),
            ),
            final(self).highlighter == old(self).highlighter,
    {
        self.cache.get_lines(path, line_start, line_end)
    }

    /// The lines to show for a file.
    pub fn get_highlighted<F: Fn(String, String) -> String>(&mut self, path: &str, highlighter: &F) -> (r:
        Result<Vec<String>, String>)
        requires
            is_total(*highlighter),
        ensures
            file_shown(*highlighter, old(self).cache@, final(self).cache@, path@, lines_view(r)),
            final(self).highlighter == old(self).highlighter,
    {
        self.cache.get_highlighted(path, highlighter)
    }

    /// One line of what is shown for a file, counted from zero. The file has the
    /// line, as far as it can be shown at all.
    pub fn get_highlighted_line<F: Fn(String, String) -> String>(
        &mut self,
        file_name: &str,
        line: u32,
        highlighter: &F,
    ) -> (r: Result<String, String>)
        requires
            is_total(*highlighter),
            has_row(*highlighter, old(self).cache@, file_name@, line as nat),
        ensures
            line_shown(
                *highlighter,
                old(self).cache@,
                final(self).cache@,
                file_name@,
                line as nat,
                some_line_view(r),
            ),
            final(self).highlighter == old(self).highlighter,
    {
        let shown = self.get_highlighted(file_name, highlighter);
        assert(file_shown(*highlighter, old(self).cache@, self.cache@, file_name@, lines_view(shown)));
        match shown {
            Ok(lines) => {
                assert(lines.len() == lines.deep_view().len());
                Ok(line_at_row(&lines, line))
            },
            Err(e) => Err(e),
        }
    }

    /// One line of what is shown for a file, counted from zero, or `None` if the
    /// file has no such line.
    pub fn find_highlighted_line<F: Fn(String, String) -> String>(
        &mut self,
        file_name: &str,
        line: u32,
        highlighter: &F,
    ) -> (r: Result<Option<String>, String>)
        requires
            is_total(*highlighter),
        ensures
            line_shown(
                *highlighter,
                old(self).cache@,
                final(self).cache@,
                file_name@,
                line as nat,
                maybe_line_view(r),
            ),
            final(self).highlighter == old(self).highlighter,
    {
        let shown = self.get_highlighted(file_name, highlighter);
        let ghost seen = lines_view(shown);
        let ghost between = self.cache@;
        assert(file_shown(*highlighter, old(self).cache@, between, file_name@, seen));
        let lines = match shown {
            Ok(lines) => lines,
            Err(e) => {
                return Err(e);
            },
        };
        assert(lines.len() == lines.deep_view().len());
        if line as usize >= lines.len() {
            return Ok(None);
        }
        proof {
            lemma_shown_again(
                *highlighter,
                old(self).cache@,
                between,
                file_name@,
                lines.deep_view(),
            );
        }
        match self.get_highlighted_line(file_name, line, highlighter) {
            Ok(text) => Ok(Some(text)),
            Err(e) => Err(e),
        }
    }

    /// Forgets every file, as what is shown for them draws on the analysis: to be
    /// called once the analysis has been read anew.
    pub fn update_analysis(&mut self)
        ensures
            final(self).cache@ == CacheView::empty(),
            final(self).highlighter == old(self).highlighter,
    {
        self.cache.clear();
    }

    /// The path under which the file of a span is shown: what is left of it below
    /// the project directory, or the path itself if it lies elsewhere.
    pub fn make_file_path(&self, span: &Span) -> (r: String)
        ensures
            r@ == file_path(self.highlighter.project_dir@, span@.file),
            !path_components(self.highlighter.project_dir@).is_prefix_of(path_components(span@.file)) ==> r@ == span@.file,
            path_components(self.highlighter.project_dir@).is_prefix_of(path_components(span@.file)) ==> path_components(r@)
                == path_components(span@.file).skip(path_components(self.highlighter.project_dir@).len() as int),
    {
        shown_path(self.highlighter.project_dir.as_str(), span.file.as_str())
    }

    /// The line that a span starts on. Where the file cannot be shown, or has no
    /// such line, the error names the span.
    pub fn make_line_result<F: Fn(String, String) -> String>(
        &mut self,
        file_path: &str,
        span: &Span,
        highlighter: &F,
    ) -> (r: Result<LineResult, String>)
        requires
            is_total(*highlighter),
        ensures
            span_shown(
                *highlighter,
                old(self).cache@,
                final(self).cache@,
                file_path@,
                span@,
                line_result_view(r),
            ),
            final(self).highlighter == old(self).highlighter,
    {
        let line = self.find_highlighted_line(file_path, span.row_start, highlighter);
        assert(line_shown(
            *highlighter,
            old(self).cache@,
            self.cache@,
            file_path@,
            span@.row_start as nat,
            maybe_line_view(line),
        ));
        line_result(span, line)
    }

    /// The lines that spans start on, by file.
    pub fn make_search_results<F: Fn(String, String) -> String>(
        &mut self,
        raw: &Vec<Span>,
        highlighter: &F,
    ) -> (r: Vec<FileResult>)
        requires
            is_total(*highlighter),
        ensures
            files_shown(
                *highlighter,
                old(self).highlighter.project_dir@,
                old(self).cache@,
                final(self).cache@,
                raw.deep_view(),
                r.deep_view(),
            ),
            final(self).highlighter == old(self).highlighter,
    {
        let ghost dir = self.highlighter.project_dir@;
        let ghost spans = raw.deep_view();
        let ghost mut states = seq![self.cache@];
        let ghost mut lines: Seq<Result<LineView, Seq<char>>> = Seq::empty();
        let mut files: Vec<FileResult> = Vec::new();
        assert(grouped(Seq::empty(), files.deep_view()));
        let mut i: usize = 0;
        while i < raw.len()
            invariant
                is_total(*highlighter),
                i <= raw.len(),
                dir == self.highlighter.project_dir@,
                self.highlighter == old(self).highlighter,
                spans == raw.deep_view(),
                spans_shown(*highlighter, dir, states, spans.take(i as int), lines),
                states[0] == old(self).cache@,
                states.last() == self.cache@,
                grouped(lines_found(dir, spans, lines), files.deep_view()),
            decreases raw.len() - i,
        {
            let path = self.make_file_path(&raw[i]);
            let result = self.make_line_result(path.as_str(), &raw[i], highlighter);
            proof {
                let k = i as int;
                let line = line_result_view(result);
                let more = lines.push(line);
                let later = states.push(self.cache@);
                assert(spans[k] == raw[k]@);
                assert(spans.take(k + 1) == spans.take(k).push(spans[k]));
                assert(more.drop_last() == lines);
                assert forall|j: int|
                    #![trigger more[j]]
                    0 <= j < k + 1 implies span_shown(
                    *highlighter,
                    later[j],
                    later[j + 1],
                    file_path(dir, spans.take(k + 1)[j].file),
                    spans.take(k + 1)[j],
                    more[j],
                ) by {
                    if j < k {
                        assert(more[j] == lines[j]);
                        assert(spans.take(k)[j] == spans.take(k + 1)[j]);
                    }
                }
                lines = more;
                states = later;
            }
            match result {
                Ok(line) => {
                    add_line(&mut files, path, line);
                },
                Err(_) => {},
            }
            i += 1;
        }
        proof {
            assert(spans.take(i as int) == spans);
        }
        files
    }

    /// A definition, the first of the spans, with the places that refer to it.
    pub fn make_def_result<F: Fn(String, String) -> String>(
        &mut self,
        spans: Vec<Span>,
        highlighter: &F,
    ) -> (r: Result<DefResult, String>)
        requires
            is_total(*highlighter),
            spans.len() > 0,
        ensures
            def_shown(
                *highlighter,
                old(self).highlighter.project_dir@,
                old(self).cache@,
                final(self).cache@,
                spans.deep_view(),
                def_result_view(r),
            ),
            final(self).highlighter == old(self).highlighter,
    {
        let ghost all = spans.deep_view();
        let mut refs = spans;
        let def_span = refs.remove(0);
        assert(def_span@ == all[0]);
        assert(refs.deep_view() == all.skip(1));
        let def_path = self.make_file_path(&def_span);
        let line = self.make_line_result(def_path.as_str(), &def_span, highlighter);
        assert(span_shown(
            *highlighter,
            old(self).cache@,
            self.cache@,
            def_path@,
            all[0],
            line_result_view(line),
        ));
        match line {
            Ok(line) => {
                let refs = self.make_search_results(&refs, highlighter);
                Ok(DefResult { file: def_path, line, refs })
            },
            Err(e) => Err(e),
        }
    }

    /// The definitions with the given identifiers, each with the places that
    /// refer to it.
    pub fn ids_search<F: Fn(String, String) -> String>(&mut self, ids: &Vec<u64>, highlighter: &F) -> (r:
        Result<SearchResult, String>)
        requires
            is_total(*highlighter),
        ensures
            defs_found(
                *highlighter,
                old(self).highlighter.analysis,
                old(self).highlighter.project_dir@,
                old(self).cache@,
                final(self).cache@,
                ids@,
                search_view(r),
            ),
            final(self).highlighter == old(self).highlighter,
    {
        let ghost dir = self.highlighter.project_dir@;
        let ghost analysis = self.highlighter.analysis;
        let ghost mut states = seq![self.cache@];
        let ghost mut answers: Seq<Option<Seq<SpanView>>> = Seq::empty();
        let ghost mut steps: Seq<Result<Option<DefView>, Seq<char>>> = Seq::empty();
        let mut defs: Vec<DefResult> = Vec::new();
        assert(defs.deep_view() == found_defs(steps));
        let mut i: usize = 0;
        while i < ids.len()
            invariant
                is_total(*highlighter),
                i <= ids.len(),
                dir == self.highlighter.project_dir@,
                analysis == self.highlighter.analysis,
                self.highlighter == old(self).highlighter,
                steps.len() == i,
                steps_taken(*highlighter, analysis, dir, states, ids@.take(i as int), answers, steps),
                i > 0 ==> steps.last() is Ok,
                states[0] == old(self).cache@,
                states.last() == self.cache@,
                defs.deep_view() == found_defs(steps),
            decreases ids.len() - i,
        {
            let ghost before = self.cache@;
            let answer = self.highlighter.analysis.find_all_refs_by_id(ids[i]);
            let ghost spans = answer.deep_view();
            let step = match answer {
                None => Err("Error finding references".to_owned()),
                Some(refs) => {
                    assert(refs.len() == refs.deep_view().len());
                    if refs.len() == 0 {
                        Ok(None)
                    } else {
                        match self.make_def_result(refs, highlighter) {
                            Ok(def) => Ok(Some(def)),
                            Err(e) => Err(e),
                        }
                    }
                },
            };
            proof {
                let k = i as int;
                let seen = step_view(step);
                let more = steps.push(seen);
                let later = states.push(self.cache@);
                let told = answers.push(spans);
                let upto = ids@.take(k + 1);
                assert(def_looked_up(
                    *highlighter,
                    analysis,
                    dir,
                    before,
                    self.cache@,
                    ids@[k],
                    spans,
                    seen,
                ));
                assert(more.drop_last() == steps);
                assert forall|j: int|
                    #![trigger more[j]]
                    0 <= j < more.len() implies def_looked_up(
                    *highlighter,
                    analysis,
                    dir,
                    later[j],
                    later[j + 1],
                    upto[j],
                    told[j],
                    more[j],
                ) by {
                    if j < k {
                        assert(more[j] == steps[j]);
                        assert(ids@.take(k)[j] == upto[j]);
                    }
                }
                assert forall|j: int| 0 <= j < more.len() - 1 implies (#[trigger] more[j]) is Ok by {
                    assert(more[j] == steps[j]);
                    if j == k - 1 {
                        assert(steps.last() is Ok);
                    }
                }
                assert(steps_taken(*highlighter, analysis, dir, later, upto, told, more));
                steps = more;
                states = later;
                answers = told;
            }
            match step {
                Ok(Some(def)) => {
                    let ghost earlier = defs.deep_view();
                    defs.push(def);
                    assert(defs.deep_view() == earlier.push(def.deep_view()));
                },
                Ok(None) => {},
                Err(e) => {
                    assert forall|j: int|
                        #![trigger steps[j]]
                        0 <= j < steps.len() implies ids@.take(i + 1)[j] == ids@[j] by {}
                    assert(steps_taken(*highlighter, analysis, dir, states, ids@, answers, steps));
                    return Err(e);
                },
            }
            i += 1;
        }
        assert(ids@.take(i as int) == ids@);
        Ok(SearchResult { defs })
    }

    /// The definition with the given identifier, with the places that refer to
    /// it.
    pub fn id_search<F: Fn(String, String) -> String>(&mut self, id: u64, highlighter: &F) -> (r: Result<
        SearchResult,
        String,
    >)
        requires
            is_total(*highlighter),
        ensures
            defs_found(
                *highlighter,
                old(self).highlighter.analysis,
                old(self).highlighter.project_dir@,
                old(self).cache@,
                final(self).cache@,
                seq![id],
                search_view(r),
            ),
            final(self).highlighter == old(self).highlighter,
    {
        let mut ids: Vec<u64> = Vec::new();
        ids.push(id);
        assert(ids@ == seq![id]);
        self.ids_search(&ids, highlighter)
    }

    /// The definitions with the given name, each with the places that refer to
    /// it.
    pub fn ident_search<F: Fn(String, String) -> String>(&mut self, needle: &str, highlighter: &F) -> (r:
        Result<SearchResult, String>)
        requires
            is_total(*highlighter),
        ensures
            name_found(
                *highlighter,
                old(self).highlighter.analysis,
                old(self).highlighter.project_dir@,
                old(self).cache@,
                final(self).cache@,
                needle@,
                search_view(r),
            ),
            final(self).highlighter == old(self).highlighter,
    {
        let ids = self.highlighter.analysis.search_for_id(needle);
        assert(gives_ids(self.highlighter.analysis, needle@, ids.deep_view()));
        match ids {
            Some(ids) => {
                assert(ids.deep_view() == ids@);
                self.ids_search(&ids, highlighter)
            },
            None => {
                let defs: Vec<DefResult> = Vec::new();
                assert(defs.deep_view() == Seq::<DefView>::empty());
                Ok(SearchResult { defs })
            },
        }
    }

    /// The implementations for the definition with the given identifier.
    pub fn find_impls<F: Fn(String, String) -> String>(&mut self, id: u64, highlighter: &F) -> (r: Result<
        FindResult,
        String,
    >)
        requires
            is_total(*highlighter),
        ensures
            impls_found(
                *highlighter,
                old(self).highlighter.analysis,
                old(self).highlighter.project_dir@,
                old(self).cache@,
                final(self).cache@,
                id,
                find_view(r),
            ),
            final(self).highlighter == old(self).highlighter,
    {
        let impls = self.highlighter.analysis.find_impls(id);
        assert(gives_impls(self.highlighter.analysis, id, impls.deep_view()));
        self.make_find_result(impls, highlighter)
    }

    /// The implementations at the given places, if there is an answer at all.
    pub fn make_find_result<F: Fn(String, String) -> String>(
        &mut self,
        impls: Option<Vec<Span>>,
        highlighter: &F,
    ) -> (r: Result<FindResult, String>)
        requires
            is_total(*highlighter),
        ensures
            impls_shown(
                *highlighter,
                old(self).highlighter.project_dir@,
                old(self).cache@,
                final(self).cache@,
                impls.deep_view(),
                find_view(r),
            ),
            final(self).highlighter == old(self).highlighter,
    {
        match impls {
            Some(spans) => {
                let results = self.make_search_results(&spans, highlighter);
                Ok(FindResult { results })
            },
            None => Err("No impls found".to_owned()),
        }
    }

    /// The root modules of the crates that belong to the project, given the names
    /// of its packages.
    pub fn get_symbol_roots(&self, packages: Option<&Vec<String>>) -> (r: Result<
        Vec<SymbolResult>,
        String,
    >)
        ensures
            packages is None ==> (r matches Err(e) && e@ == "Could not access cargo metadata"@),
            packages matches Some(names) ==> r is Ok && exists|
                roots: Seq<RootView>,
                defs: Seq<Option<DefinitionView>>,
            | #[trigger]
                roots_known(self.highlighter.analysis, roots, defs) && r->Ok_0.deep_view()
                    == root_symbols(
                    self.highlighter.project_dir@,
                    roots,
                    defs,
                    names.deep_view(),
                ),
    {
        let names = match packages {
            Some(names) => names,
            None => {
                return Err("Could not access cargo metadata".to_owned());
            },
        };
        let answer = self.highlighter.analysis.def_roots();
        assert(gives_roots(self.highlighter.analysis, answer.deep_view()));
        let roots = match answer {
            Some(roots) => roots,
            None => Vec::new(),
        };
        let ghost all = roots.deep_view();
        let ghost mut defs: Seq<Option<DefinitionView>> = Seq::empty();
        let ghost dir = self.highlighter.project_dir@;
        let mut result: Vec<SymbolResult> = Vec::new();
        assert(result.deep_view() == root_symbols(dir, all, defs, names.deep_view()));
        let mut i: usize = 0;
        while i < roots.len()
            invariant
                i <= roots.len(),
                all == roots.deep_view(),
                dir == self.highlighter.project_dir@,
                defs.len() == i,
                forall|j: int|
                    #![trigger defs[j]]
                    0 <= j < i ==> gives_def(self.highlighter.analysis, all[j].id, defs[j]),
                result.deep_view() == root_symbols(dir, all, defs, names.deep_view()),
            decreases roots.len() - i,
        {
            let def = self.highlighter.analysis.get_def(roots[i].id);
            proof {
                let more = defs.push(def.deep_view());
                assert(more.drop_last() == defs);
                assert forall|j: int|
                    #![trigger more[j]]
                    0 <= j < i + 1 implies gives_def(self.highlighter.analysis, all[j].id, more[j]) by {
                    if j < i {
                        assert(more[j] == defs[j]);
                    }
                }
                defs = more;
            }
            if let Some(def) = def {
                if is_among(names, roots[i].name.as_str()) {
                    let ghost before = result.deep_view();
                    let one = self.symbol_result(roots[i].id, roots[i].name.clone(), &def.span);
                    result.push(one);
                    assert(result.deep_view() == before.push(one.deep_view()));
                }
            }
            i += 1;
        }
        assert(roots_known(self.highlighter.analysis, all, defs));
        Ok(result)
    }

    /// The definitions directly inside of another.
    pub fn get_symbol_children(&self, id: u64) -> (r: Result<Vec<SymbolResult>, String>)
        ensures
            exists|children: Result<Seq<DefinitionView>, Seq<char>>| #[trigger]
                gives_children(self.highlighter.analysis, id, children) && match children {
                    Ok(children) => r is Ok && r->Ok_0.deep_view() == child_symbols(
                        self.highlighter.project_dir@,
                        children,
                    ),
                    Err(reason) => r matches Err(e) && e@ == reason,
                },
            r matches Err(e) ==> e@ == "unknown error"@ || e@
                == "poison error in a mutex (usually a secondary error)"@,
    {
        let answer = self.highlighter.analysis.child_defs(id);
        assert(gives_children(self.highlighter.analysis, id, children_view(answer)));
        match answer {
            Ok(children) => Ok(self.symbol_results(&children)),
            Err(e) => Err(e),
        }
    }

    /// A definition as it is listed, under a name.
    pub fn symbol_result(&self, id: u64, name: String, span: &Span) -> (r: SymbolResult)
        ensures
            r.deep_view() == symbol(self.highlighter.project_dir@, id, name@, span@),
    {
        SymbolResult {
            id: u64_text(id),
            name,
            file_name: self.make_file_path(span),
            line_start: span.row_start as u64 + 1,
        }
    }

    /// Definitions as they are listed.
    pub fn symbol_results(&self, defs: &Vec<Definition>) -> (r: Vec<SymbolResult>)
        ensures
            r.deep_view() == child_symbols(self.highlighter.project_dir@, defs.deep_view()),
    {
        let ghost dir = self.highlighter.project_dir@;
        let ghost all = child_symbols(dir, defs.deep_view());
        let mut result: Vec<SymbolResult> = Vec::new();
        assert(result.deep_view() == all.take(0));
        let mut i: usize = 0;
        while i < defs.len()
            invariant
                i <= defs.len(),
                dir == self.highlighter.project_dir@,
                all == child_symbols(dir, defs.deep_view()),
                result.deep_view() == all.take(i as int),
            decreases defs.len() - i,
        {
            let ghost before = result.deep_view();
            let one = self.symbol_result(defs[i].id, defs[i].name.clone(), &defs[i].span);
            result.push(one);
            assert(defs.deep_view()[i as int] == defs[i as int].deep_view());
            assert(result.deep_view() == before.push(one.deep_view()));
            assert(all.take(i + 1) == all.take(i as int).push(all[i as int]));
            i += 1;
        }
        assert(all.take(i as int) == all);
        result
    }
}

/// Lines that have been shown are what is shown again, so the rows that they have
/// are there.
proof fn lemma_shown_again<F: Fn(String, String) -> String>(
    highlighter: F,
    before: CacheView,
    cache: CacheView,
    path: Seq<char>,
    lines: Seq<Seq<char>>,
)
    requires
        file_shown(highlighter, before, cache, path, Ok::<Seq<Seq<char>>, Seq<char>>(lines)),
        lines.len() > 0,
    ensures
        forall|after: CacheView, shown: Result<Seq<Seq<char>>, Seq<char>>| #[trigger]
            file_shown(highlighter, cache, after, path, shown) ==> shown == Ok::<
                Seq<Seq<char>>,
                Seq<char>,
            >(lines) && after == cache,
{
    assert forall|after: CacheView, shown: Result<Seq<Seq<char>>, Seq<char>>| #[trigger]
        file_shown(highlighter, cache, after, path, shown) implies shown == Ok::<
        Seq<Seq<char>>,
        Seq<char>,
    >(lines) && after == cache by {
        law_shown_lines_are_kept(highlighter, highlighter, before, cache, after, path, lines, shown);
    }
}

/// Whether a text is among others.
pub fn is_among(texts: &Vec<String>, one: &str) -> (r: bool)
    ensures
        r == texts.deep_view().contains(one@),
{
    let mut i: usize = 0;
    while i < texts.len()
        invariant
            i <= texts.len(),
            forall|j: int| 0 <= j < i ==> texts.deep_view()[j] != one@,
        decreases texts.len() - i,
    {
        if same_text(texts[i].as_str(), one) {
            assert(texts.deep_view()[i as int] == one@);
            return true;
        }
        i += 1;
    }
    false
}

/// The line at `row`, counted from zero.
pub fn line_at_row(lines: &Vec<String>, row: u32) -> (r: String)
    requires
        row < lines.len(),
    ensures
        r@ == lines.deep_view()[row as int],
{
    lines[row as usize].clone()
}

/// What is made of a span, given the line that it starts on, if there is one.
pub fn line_result(span: &Span, line: Result<Option<String>, String>) -> (r: Result<
    LineResult,
    String,
>)
    ensures
        line_result_view(r) == span_line(span@, maybe_line_view(line)),
{
    match line {
        Ok(Some(text)) => Ok(LineResult::new(span, text)),
        _ => {
            let debug = span_debug_text(span);
            Err(joined("Error finding text for ", debug.as_str()))
        },
    }
}

/// The path under which a file is shown: what is left of it below the project
/// directory, or the path itself if it lies elsewhere.
pub fn shown_path(project_dir: &str, file: &str) -> (r: String)
    ensures
        r@ == file_path(project_dir@, file@),
        !path_components(project_dir@).is_prefix_of(path_components(file@)) ==> r@ == file@,
        path_components(project_dir@).is_prefix_of(path_components(file@)) ==> path_components(r@)
            == path_components(file@).skip(path_components(project_dir@).len() as int),
{
    match strip_prefix(file, project_dir) {
        Some(path) => path,
        None => file.to_owned(),
    }
}

} // verus!
