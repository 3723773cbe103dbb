//! What a server answers to the requests of a browser.

use vstd::hash_map::StringHashMap;
use vstd::prelude::*;

use crate::file_controller::file_cache::CacheView;
use crate::file_controller::FileController;
use crate::server::building::{BuildResult, BuildUpdateHandler};
use crate::server::query::parse_query_value;
use crate::server::query::{law_value_is_read_back, query_value};
use crate::server::reply::Failure;
use crate::server::reply::{server_failure, FailureView, Status};

pub mod building;
pub mod edit;
pub mod event;
pub mod files;
pub mod query;
pub mod reply;
pub mod route;
pub mod search;

verus! {

/// How a server behaves.
#[derive(Debug)]
pub struct Config {
    /// Whether the server only shows what it can do, and changes nothing.
    pub demo_mode: bool,
    /// Whether unfinished features are on.
    pub unstable_features: bool,
    /// Whether the data that the compiler leaves behind are used.
    pub save_analysis: bool,
    /// The command that opens an editor, in which `$file`, `$line` and `$col`
    /// stand for a place. Empty if there is none.
    pub edit_command: String,
}

/// A session of the server. `D` is what the compiler has to say about a place in
/// the source.
pub struct Instance<D> {
    pub config: Config,
    pub file_cache: FileController,
    /// The data that clients may pull, by key; `None` while they are prepared.
    pub pending_push_data: StringHashMap<Option<String>>,
    pub build_update_handler: Option<BuildUpdateHandler<D>>,
}

/// Work to be done once a client has the result of a build: data to prepare under
/// a key from diagnostics.
pub struct PushTask<D> {
    pub key: String,
    pub errors: Vec<D>,
    pub use_analysis: bool,
}

/// What to do about a client that pulls data.
#[derive(Debug)]
pub enum Pull {
    /// Send this.
    Send(String),
    /// The data are being prepared: look again later.
    Wait,
}

/// The values of a `Pull`.
pub enum PullView {
    Send(Seq<char>),
    Wait,
}

impl View for Pull {
    type V = PullView;

    open spec fn view(&self) -> PullView {
        match *self {
            Pull::Send(s) => PullView::Send(s@),
            Pull::Wait => PullView::Wait,
        }
    }
}

/// What to do about a client that pulls the data under a key. There is nothing
/// under a key that is not known.
pub open spec fn pull_of(pending: Map<Seq<char>, Option<String>>, key: Seq<char>) -> PullView {
    if pending.contains_key(key) {
        match pending[key] {
            Some(data) => PullView::Send(data@),
            None => PullView::Wait,
        }
    } else {
        PullView::Send("{}"@)
    }
}

/// What comes of a request that pulls data: `key` names them.
pub open spec fn pull_answer(
    pending: Map<Seq<char>, Option<String>>,
    query: Option<Seq<char>>,
) -> Result<PullView, FailureView> {
    match query_value(query, "key="@) {
        Some(key) => Ok(pull_of(pending, key)),
        None => Err(server_failure("Bad query string"@)),
    }
}

/// The view of what to do about a client, or of why nothing is done.
pub open spec fn pull_view(r: Result<Pull, Failure>) -> Result<PullView, FailureView> {
    match r {
        Ok(pull) => Ok(pull@),
        Err(failure) => Err(failure@),
    }
}

impl<D> Instance<D> {
    /// What is kept of a build is consistent.
    pub open spec fn wf(self) -> bool {
        self.build_update_handler matches Some(handler) ==> handler.wf()
    }

    /// A session for the project in a directory, with nothing known of it yet.
    pub fn new(config: Config, project_dir: String) -> (r: Instance<D>)
        ensures
            r.wf(),
            r.config == config,
            r.file_cache.highlighter.project_dir == project_dir,
            r.file_cache.cache@ == CacheView::empty(),
            r.pending_push_data@ == Map::<Seq<char>, Option<String>>::empty(),
            r.build_update_handler is None,
    {
        Instance {
            config,
            file_cache: FileController::new(project_dir),
            pending_push_data: StringHashMap::new(),
            build_update_handler: None,
        }
    }

    /// Prepares for a build: every file is forgotten, as it may change. There are
    /// no builds in demo mode.
    pub fn start_build(&mut self)
        requires
            !old(self).config.demo_mode,
        ensures
            old(self).wf() ==> final(self).wf(),
            final(self).file_cache.cache@ == CacheView::empty(),
            final(self).file_cache.highlighter == old(self).file_cache.highlighter,
            final(self).config == old(self).config,
            final(self).pending_push_data == old(self).pending_push_data,
            final(self).build_update_handler == old(self).build_update_handler,
    {
        self.file_cache.cache.clear();
    }

    /// The result of a build, given what was found in its output and a key under
    /// which more data will be prepared. From now on the key is known.
    pub fn make_build_result(&mut self, errors: Vec<D>, messages: Vec<String>, key: String) -> (r:
        BuildResult<D>)
        ensures
            old(self).wf() ==> final(self).wf(),
            r.errors == errors,
            r.messages == messages,
            r.push_data_key matches Some(k) && k@ == key@,
            final(self).pending_push_data@ == old(self).pending_push_data@.insert(key@, None),
            final(self).config == old(self).config,
            final(self).file_cache == old(self).file_cache,
            final(self).build_update_handler == old(self).build_update_handler,
    {
        let mut result = BuildResult::from_build(errors, messages);
        result.push_data_key = Some(key.clone());
        self.pending_push_data.insert(key, None);
        result
    }

    /// The work to be done for the result of a build, if it has a key. The
    /// diagnostics that came while the build ran stand before those of its result,
    /// and are kept no more.
    pub fn process_push_data(&mut self, result: BuildResult<D>) -> (r: Option<PushTask<D>>)
        ensures
            old(self).wf() ==> final(self).wf(),
            match result.push_data_key {
                Some(key) => {
                    &&& r is Some
                    &&& r->Some_0.key == key
                    &&& r->Some_0.use_analysis == old(self).config.save_analysis
                    &&& match old(self).build_update_handler {
                        Some(handler) => {
                            &&& r->Some_0.errors@ == handler.diagnostics@ + result.errors@
                            &&& final(self).build_update_handler is Some
                            &&& final(self).build_update_handler->Some_0.diagnostics@.len() == 0
                            &&& final(self).build_update_handler->Some_0.updates == handler.updates
                            &&& final(self).build_update_handler->Some_0.seen == handler.seen
                            &&& final(self).build_update_handler->Some_0.complete
                                == handler.complete
                        },
                        None => {
                            &&& r->Some_0.errors@ == result.errors@
                            &&& final(self).build_update_handler is None
                        },
                    }
                },
                None => r is None && final(self).build_update_handler == old(
                    self,
                ).build_update_handler,
            },
            final(self).config == old(self).config,
            final(self).file_cache == old(self).file_cache,
            final(self).pending_push_data == old(self).pending_push_data,
    {
        match result.push_data_key {
            Some(key) => {
                let mut errors: Vec<D> = Vec::new();
                let mut rest = result.errors;
                let mut current: Option<BuildUpdateHandler<D>> = None;
                std::mem::swap(&mut current, &mut self.build_update_handler);
                if let Some(mut handler) = current {
                    errors = handler.take_diagnostics();
                    self.build_update_handler = Some(handler);
                }
                errors.append(&mut rest);
                Some(PushTask { key, errors, use_analysis: self.config.save_analysis })
            },
            None => None,
        }
    }

    /// Notes that a build is over: nobody follows it any more.
    pub fn finish_build(&mut self)
        ensures
            final(self).wf(),
            final(self).build_update_handler is None,
            final(self).config == old(self).config,
            final(self).file_cache == old(self).file_cache,
            final(self).pending_push_data == old(self).pending_push_data,
    {
        self.build_update_handler = None;
    }

    /// Starts to follow a build, unless it is followed already. There are no builds
    /// in demo mode.
    pub fn follow_build(&mut self) -> (r: bool)
        requires
            !old(self).config.demo_mode,
        ensures
            old(self).wf() ==> final(self).wf(),
            r == (old(self).build_update_handler is None),
            !r ==> final(self).build_update_handler == old(self).build_update_handler,
            r ==> (final(self).build_update_handler matches Some(handler) && handler.wf()
                && handler.updates@.len() == 0 && handler.seen == 0 && handler.diagnostics@.len() == 0
                && !handler.complete),
            final(self).config == old(self).config,
            final(self).file_cache == old(self).file_cache,
            final(self).pending_push_data == old(self).pending_push_data,
    {
        match &self.build_update_handler {
            Some(_) => false,
            None => {
                self.build_update_handler = Some(BuildUpdateHandler::new());
                true
            },
        }
    }

    /// Notes that the data under a key are ready.
    pub fn finish_push(&mut self, key: String, data: String)
        ensures
            old(self).wf() ==> final(self).wf(),
            final(self).pending_push_data@ == old(self).pending_push_data@.insert(key@, Some(data)),
            final(self).config == old(self).config,
            final(self).file_cache == old(self).file_cache,
            final(self).build_update_handler == old(self).build_update_handler,
    {
        self.pending_push_data.insert(key, Some(data));
    }

    /// What to do about a client that pulls data.
    pub fn handle_pull(&self, query: &Option<String>) -> (r: Result<Pull, Failure>)
        ensures
            pull_view(r) == pull_answer(self.pending_push_data@, query.deep_view()),
    {
        match parse_query_value(query, "key=") {
            Some(key) => Ok(
                match self.pending_push_data.get(key.as_str()) {
                    Some(Some(data)) => Pull::Send(data.clone()),
                    Some(None) => Pull::Wait,
                    None => Pull::Send("{}".to_owned()),
                },
            ),
            None => Err(Failure::new("Bad query string".to_owned())),
        }
    }
}

/// A client that pulls data waits from the result of the build on until they are
/// ready, and then gets them. What is under other keys does not change.
pub proof fn law_pull_waits_for_data(
    pending: Map<Seq<char>, Option<String>>,
    key: Seq<char>,
    data: String,
    other: Seq<char>,
)
    ensures
        pull_of(pending.insert(key, None), key) == PullView::Wait,
        pull_of(pending.insert(key, None).insert(key, Some(data)), key) == PullView::Send(data@),
        other != key ==> pull_of(pending.insert(key, None), other) == pull_of(pending, other),
        other != key ==> pull_of(pending.insert(key, Some(data)), other) == pull_of(pending, other),
{
}

/// Data are never sent before they are ready, and a client never waits for data
/// that nobody prepares.
pub proof fn law_only_known_keys_wait(pending: Map<Seq<char>, Option<String>>, key: Seq<char>)
    ensures
        pull_of(pending, key) is Wait <==> pending.contains_key(key) && pending[key] is None,
{
}

/// A client that asks for a key gets the data under it once they are there, waits
/// while they are prepared, and gets an empty object for a key that is not known. A
/// request without a key fails.
pub proof fn law_pull_goes_by_key(
    pending: Map<Seq<char>, Option<String>>,
    key: Seq<char>,
    query: Option<Seq<char>>,
)
    requires
        !key.contains('&'),
    ensures
        ({
            let answer = pull_answer(pending, Some("key="@ + key));
            &&& !pending.contains_key(key) ==> answer == Ok::<PullView, FailureView>(
                PullView::Send("{}"@),
            )
            &&& pending.contains_key(key) && pending[key] is None ==> answer == Ok::<
                PullView,
                FailureView,
            >(PullView::Wait)
            &&& pending.contains_key(key) ==> (pending[key] matches Some(data) ==> answer == Ok::<
                PullView,
                FailureView,
            >(PullView::Send(data@)))
        }),
        query_value(query, "key="@) is None ==> pull_answer(pending, query) == Err::<
            PullView,
            FailureView,
        >(FailureView { status: Status::InternalServerError, msg: "Bad query string"@ }),
{
    let nothing = Seq::<char>::empty();
    assert(nothing + "key="@ + key + nothing == "key="@ + key);
    law_value_is_read_back(nothing, "key="@, key, nothing);
}

/// The view of what to do about a client shows it, or why nothing is done.
pub proof fn law_pull_view_shows_everything(r: Result<Pull, Failure>)
    ensures
        match r {
            Ok(Pull::Send(data)) => pull_view(r) == Ok::<PullView, FailureView>(
                PullView::Send(data@),
            ),
            Ok(Pull::Wait) => pull_view(r) == Ok::<PullView, FailureView>(PullView::Wait),
            Err(failure) => pull_view(r) == Err::<PullView, FailureView>(failure@),
        },
{
}

} // verus!
