//! The analysis of a project: its definitions and where they are used.

use vstd::prelude::*;

use crate::file_controller::span::{Span, SpanView};

verus! {

/// The data that a compiler left behind about a project, in an
/// `rls_analysis::AnalysisHost`. The data are read from disk, by way of `host`, at
/// any time, so nothing is said of what an analysis holds: only that an answer is
/// one that it may give.
#[verifier::external_body]
pub struct Analysis {
    pub host: std::sync::Arc<rls_analysis::AnalysisHost>,
}

/// A definition: its identifier, its name, and where it stands.
pub struct Definition {
    pub id: u64,
    pub name: String,
    pub span: Span,
}

/// The values of a `Definition`.
pub struct DefinitionView {
    pub id: u64,
    pub name: Seq<char>,
    pub span: SpanView,
}

impl DeepView for Definition {
    type V = DefinitionView;

    open spec fn deep_view(&self) -> DefinitionView {
        DefinitionView { id: self.id, name: self.name@, span: self.span@ }
    }
}

/// The root module of a crate, and the name of the crate.
pub struct CrateRoot {
    pub id: u64,
    pub name: String,
}

/// The values of a `CrateRoot`.
pub struct RootView {
    pub id: u64,
    pub name: Seq<char>,
}

impl DeepView for CrateRoot {
    type V = RootView;

    open spec fn deep_view(&self) -> RootView {
        RootView { id: self.id, name: self.name@ }
    }
}

/// Whether an analysis may answer with these crate roots.
pub uninterp spec fn gives_roots(analysis: Analysis, roots: Option<Seq<RootView>>) -> bool;

/// Whether an analysis may answer with this definition of `id`.
pub uninterp spec fn gives_def(analysis: Analysis, id: u64, def: Option<DefinitionView>) -> bool;

/// Whether an analysis may answer with these definitions inside of `id`, or with
/// this reason for having none.
pub uninterp spec fn gives_children(
    analysis: Analysis,
    id: u64,
    children: Result<Seq<DefinitionView>, Seq<char>>,
) -> bool;

/// Whether an analysis may answer with these definitions of a name.
pub uninterp spec fn gives_ids(analysis: Analysis, name: Seq<char>, ids: Option<Seq<u64>>) -> bool;

/// Whether an analysis may answer with these implementations for `id`.
pub uninterp spec fn gives_impls(analysis: Analysis, id: u64, spans: Option<Seq<SpanView>>) -> bool;

/// Whether an analysis may answer with these places of `id`, its definition
/// first.
pub uninterp spec fn gives_refs(analysis: Analysis, id: u64, spans: Option<Seq<SpanView>>) -> bool;

/// The view of an answer, or of the reason why there is none.
pub open spec fn children_view(r: Result<Vec<Definition>, String>) -> Result<
    Seq<DefinitionView>,
    Seq<char>,
> {
    match r {
        Ok(children) => Ok(children.deep_view()),
        Err(e) => Err(e@),
    }
}

impl Analysis {
    /// `AnalysisHost::new` for a debug build: a host without data.
    #[verifier::external_body]
    pub(crate) fn new() -> (r: Analysis) {
        Analysis {
            host: std::sync::Arc::new(rls_analysis::AnalysisHost::new(rls_analysis::Target::Debug)),
        }
    }

    /// `AnalysisHost::def_roots`: the root of each crate. Which roots there are,
    /// and in which order, rests on the data and is not stated.
    #[verifier::external_body]
    pub(crate) fn def_roots(&self) -> (r: Option<Vec<CrateRoot>>)
        ensures
            gives_roots(*self, r.deep_view()),
    {
        let roots = self.host.def_roots().ok()?;
        Some(
            roots.into_iter().map(
                |(id, name)| CrateRoot { id: id.to_string().parse().unwrap(), name },
            ).collect(),
        )
    }

    /// `AnalysisHost::get_def`: the definition with an identifier. What it is rests
    /// on the data and is not stated.
    #[verifier::external_body]
    pub(crate) fn get_def(&self, id: u64) -> (r: Option<Definition>)
        ensures
            gives_def(*self, id, r.deep_view()),
    {
        let def = self.host.get_def(rls_analysis::Id::new(id)).ok()?;
        let span = Span {
            file: def.span.file.to_string_lossy().into_owned(),
            row_start: def.span.range.row_start.0,
            row_end: def.span.range.row_end.0,
            col_start: def.span.range.col_start.0,
            col_end: def.span.range.col_end.0,
        };
        Some(Definition { id, name: def.name, span })
    }

    /// `AnalysisHost::for_each_child_def`, called to collect the definitions
    /// directly inside of another. Which they are, and in which order, rests on
    /// the data and is not stated. The reason for having none is one of the two
    /// messages of `rls_analysis::AError`.
    #[verifier::external_body]
    pub(crate) fn child_defs(&self, id: u64) -> (r: Result<Vec<Definition>, String>)
        ensures
            gives_children(*self, id, children_view(r)),
            r matches Err(e) ==> e@ == "unknown error"@ || e@
                == "poison error in a mutex (usually a secondary error)"@,
    {
        self.host.for_each_child_def(rls_analysis::Id::new(id), |id, def| Definition {
            id: id.to_string().parse().unwrap(),
            name: def.name.clone(),
            span: Span {
                file: def.span.file.to_string_lossy().into_owned(),
                row_start: def.span.range.row_start.0,
                row_end: def.span.range.row_end.0,
                col_start: def.span.range.col_start.0,
                col_end: def.span.range.col_end.0,
            },
        }).map_err(|e| e.to_string())
    }

    /// `AnalysisHost::search_for_id`: the identifiers of the definitions with a
    /// name. Which they are, and in which order, rests on the data and is not
    /// stated.
    #[verifier::external_body]
    pub(crate) fn search_for_id(&self, name: &str) -> (r: Option<Vec<u64>>)
        ensures
            gives_ids(*self, name@, r.deep_view()),
    {
        let ids = self.host.search_for_id(name).ok()?;
        Some(ids.into_iter().map(|id| id.to_string().parse().unwrap()).collect())
    }

    /// `AnalysisHost::find_impls`: the places of the implementations for a
    /// definition. Which they are, and in which order, rests on the data and is not
    /// stated.
    #[verifier::external_body]
    pub(crate) fn find_impls(&self, id: u64) -> (r: Option<Vec<Span>>)
        ensures
            gives_impls(*self, id, r.deep_view()),
    {
        let spans = self.host.find_impls(rls_analysis::Id::new(id)).ok()?;
        Some(spans.into_iter().map(|s| Span {
            file: s.file.to_string_lossy().into_owned(),
            row_start: s.range.row_start.0,
            row_end: s.range.row_end.0,
            col_start: s.range.col_start.0,
            col_end: s.range.col_end.0,
        }).collect())
    }

    /// `AnalysisHost::find_all_refs_by_id`: the place of a definition, and then
    /// the places that refer to it. Which they are, and in which order, rests on
    /// the data and is not stated.
    #[verifier::external_body]
    pub(crate) fn find_all_refs_by_id(&self, id: u64) -> (r: Option<Vec<Span>>)
        ensures
            gives_refs(*self, id, r.deep_view()),
    {
        let spans = self.host.find_all_refs_by_id(rls_analysis::Id::new(id)).ok()?;
        Some(spans.into_iter().map(|s| Span {
            file: s.file.to_string_lossy().into_owned(),
            row_start: s.range.row_start.0,
            row_end: s.range.row_end.0,
            col_start: s.range.col_start.0,
            col_end: s.range.col_end.0,
        }).collect())
    }
}

/// The views of answers show every field, each as it is.
pub proof fn law_answer_views_show_every_field(
    def: Definition,
    root: CrateRoot,
    children: Result<Vec<Definition>, String>,
)
    ensures
        def.deep_view().id == def.id,
        def.deep_view().name == def.name@,
        def.deep_view().span == def.span@,
        root.deep_view().id == root.id,
        root.deep_view().name == root.name@,
        match children {
            Ok(defs) => children_view(children) == Ok::<Seq<DefinitionView>, Seq<char>>(
                defs.deep_view(),
            ),
            Err(e) => children_view(children) == Err::<Seq<DefinitionView>, Seq<char>>(e@),
        },
{
}

} // verus!
