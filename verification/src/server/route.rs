//! Which answer a request asks for.

use vstd::prelude::*;

use crate::text::same_text;
use crate::text::split;

verus! {

/// What a request asks for.
pub enum Action {
    /// The page that starts the client.
    Index,
    /// The configuration.
    Config,
    /// Data that is being prepared, named by the query.
    Pull(Option<String>),
    /// A source file or a directory, by the parts of its path.
    Source(Vec<String>),
    /// The places where something stands, named by the query.
    Find(Option<String>),
    /// The outcome of a made-up build.
    Test,
    /// A build.
    Build,
    /// What a running build has to say.
    BuildUpdates,
    /// An editor for the file that the query names.
    Edit(Option<String>),
    /// Definitions, named by the query.
    Search(Option<String>),
    /// Some lines of a file, named by the query.
    PlainText(Option<String>),
    /// A file of the client, by the parts of its path.
    Static(Vec<String>),
}

/// The values of an `Action`.
#[verifier::ext_equal]
pub enum ActionView {
    Index,
    Config,
    Pull(Option<Seq<char>>),
    Source(Seq<Seq<char>>),
    Find(Option<Seq<char>>),
    Test,
    Build,
    BuildUpdates,
    Edit(Option<Seq<char>>),
    Search(Option<Seq<char>>),
    PlainText(Option<Seq<char>>),
    Static(Seq<Seq<char>>),
}

impl DeepView for Action {
    type V = ActionView;

    open spec fn deep_view(&self) -> ActionView {
        match *self {
            Action::Index => ActionView::Index,
            Action::Config => ActionView::Config,
            Action::Pull(query) => ActionView::Pull(query.deep_view()),
            Action::Source(path) => ActionView::Source(path.deep_view()),
            Action::Find(query) => ActionView::Find(query.deep_view()),
            Action::Test => ActionView::Test,
            Action::Build => ActionView::Build,
            Action::BuildUpdates => ActionView::BuildUpdates,
            Action::Edit(query) => ActionView::Edit(query.deep_view()),
            Action::Search(query) => ActionView::Search(query.deep_view()),
            Action::PlainText(query) => ActionView::PlainText(query.deep_view()),
            Action::Static(path) => ActionView::Static(path.deep_view()),
        }
    }
}

// --------------------------------------------------------------------------
// From a path to an action
// --------------------------------------------------------------------------

/// Whether a path asks for the page that starts the client.
pub open spec fn is_index(path: Seq<Seq<char>>) -> bool {
    path.len() == 0 || (path.len() == 1 && (path[0] == "index.html"@ || path[0] == ""@))
}

/// Whether a path can be routed: one that asks for data says which data.
pub open spec fn is_routable(path: Seq<Seq<char>>) -> bool {
    !is_index(path) && path[0] == "data"@ ==> path.len() >= 2
}

/// The source path that a request names. A URL that ends in `/.` comes as one
/// that ends in `/`, so a single empty part stands for the current directory.
pub open spec fn source_parts(parts: Seq<Seq<char>>) -> Seq<Seq<char>> {
    if parts.len() == 1 && parts[0] == ""@ {
        seq!["."@]
    } else {
        parts
    }
}

/// What a request for data asks for, if it is known.
pub open spec fn data_route(
    path: Seq<Seq<char>>,
    query: Option<Seq<char>>,
    demo_mode: bool,
) -> Option<ActionView> {
    if path[1] == "config"@ {
        Some(ActionView::Config)
    } else if path[1] == "pull"@ {
        Some(ActionView::Pull(query))
    } else if path[1] == "src"@ {
        Some(ActionView::Source(source_parts(path.skip(2))))
    } else if path[1] == "find"@ {
        Some(ActionView::Find(query))
    } else if path[1] == "build"@ {
        Some(
            if demo_mode {
                ActionView::Test
            } else {
                ActionView::Build
            },
        )
    } else if !demo_mode && path[0] == "build_updates"@ {
        Some(ActionView::BuildUpdates)
    } else if !demo_mode && path[0] == "edit"@ {
        Some(ActionView::Edit(query))
    } else if path[1] == "search"@ {
        Some(ActionView::Search(query))
    } else {
        None
    }
}

/// What a path and a query ask for.
pub open spec fn route_of(
    path: Seq<Seq<char>>,
    query: Option<Seq<char>>,
    demo_mode: bool,
) -> ActionView {
    if is_index(path) {
        ActionView::Index
    } else if path[0] == "data"@ && data_route(path, query, demo_mode) is Some {
        data_route(path, query, demo_mode)->Some_0
    } else if path[0] == "plain_text"@ {
        ActionView::PlainText(query)
    } else if path[0] == "static"@ {
        ActionView::Static(path.skip(1))
    } else {
        ActionView::Index
    }
}

/// The parts of a path from `from` on.
fn parts_from(path: &Vec<String>, from: usize) -> (r: Vec<String>)
    requires
        from <= path.len(),
    ensures
        r.deep_view() == path.deep_view().skip(from as int),
{
    let mut parts: Vec<String> = Vec::new();
    let mut i: usize = from;
    while i < path.len()
        invariant
            from <= i <= path.len(),
            parts.deep_view() == path.deep_view().subrange(from as int, i as int),
        decreases path.len() - i,
    {
        let ghost before = parts.deep_view();
        let part = path[i].clone();
        parts.push(part);
        assert(parts.deep_view() == before.push(path.deep_view()[i as int]));
        i += 1;
    }
    parts
}

/// The source path that a request names, given the parts behind `data/src`.
fn source_parts_of(parts: Vec<String>) -> (r: Vec<String>)
    ensures
        r.deep_view() == source_parts(parts.deep_view()),
{
    assert(parts.len() == parts.deep_view().len());
    if parts.len() == 1 && same_text(parts[0].as_str(), "") {
        let mut current: Vec<String> = Vec::new();
        current.push(".".to_owned());
        assert(current.deep_view() == seq!["."@]);
        current
    } else {
        assert(parts.len() == 1 ==> parts.deep_view()[0] == parts[0]@);
        parts
    }
}

/// What a request asks for, by the parts of its path and its query. All requests
/// that are not known are left to the client.
pub fn route_path(path: &Vec<String>, query: Option<String>, demo_mode: bool) -> (r: Action)
    requires
        is_routable(path.deep_view()),
    ensures
        r.deep_view() == route_of(path.deep_view(), query.deep_view(), demo_mode),
{
    let ghost parts = path.deep_view();
    assert(path.len() == parts.len());
    assert(forall|i: int| 0 <= i < parts.len() ==> #[trigger] parts[i] == path[i]@);
    if path.len() == 0 || (path.len() == 1 && (same_text(path[0].as_str(), "index.html")
        || same_text(path[0].as_str(), ""))) {
        return Action::Index;
    }
    if same_text(path[0].as_str(), "data") {
        if same_text(path[1].as_str(), "config") {
            return Action::Config;
        }
        if same_text(path[1].as_str(), "pull") {
            return Action::Pull(query);
        }
        if same_text(path[1].as_str(), "src") {
            return Action::Source(source_parts_of(parts_from(path, 2)));
        }
        if same_text(path[1].as_str(), "find") {
            return Action::Find(query);
        }
        if same_text(path[1].as_str(), "build") {
            return if demo_mode {
                Action::Test
            } else {
                Action::Build
            };
        }
        if !demo_mode {
            if same_text(path[0].as_str(), "build_updates") {
                return Action::BuildUpdates;
            }
            if same_text(path[0].as_str(), "edit") {
                return Action::Edit(query);
            }
        }
        if same_text(path[1].as_str(), "search") {
            return Action::Search(query);
        }
    }
    if same_text(path[0].as_str(), "plain_text") {
        return Action::PlainText(query);
    }
    if same_text(path[0].as_str(), "static") {
        return Action::Static(parts_from(path, 1));
    }
    Action::Index
}

/// In demo mode nothing is built, followed while it builds, or edited.
pub proof fn law_demo_mode_builds_nothing(path: Seq<Seq<char>>, query: Option<Seq<char>>)
    ensures
        !(route_of(path, query, true) is Build),
        !(route_of(path, query, true) is BuildUpdates),
        !(route_of(path, query, true) is Edit),
{
}

/// A request for data is never one for updates of a build or for an editor: the
/// two stand behind `data`, and are looked for at the start of the path.
pub proof fn law_updates_and_editor_are_not_routed(
    path: Seq<Seq<char>>,
    query: Option<Seq<char>>,
    demo_mode: bool,
)
    ensures
        !(route_of(path, query, demo_mode) is BuildUpdates),
        !(route_of(path, query, demo_mode) is Edit),
{
    reveal_strlit("data");
    reveal_strlit("build_updates");
    reveal_strlit("edit");
    assert("data"@[0] != "edit"@[0]);
    assert("data"@[0] != "build_updates"@[0]);
}

/// Whatever does not start with `data`, `plain_text` or `static` is left to the
/// client, and so is a request for data that are not known.
pub proof fn law_other_requests_go_to_client(
    path: Seq<Seq<char>>,
    query: Option<Seq<char>>,
    demo_mode: bool,
)
    requires
        path.len() > 0,
        path[0] != "plain_text"@,
        path[0] != "static"@,
        path[0] == "data"@ ==> !seq![
            "config"@,
            "pull"@,
            "src"@,
            "find"@,
            "build"@,
            "search"@,
        ].contains(path[1]),
    ensures
        route_of(path, query, demo_mode) is Index,
{
    law_updates_and_editor_are_not_routed(path, query, demo_mode);
    let known = seq!["config"@, "pull"@, "src"@, "find"@, "build"@, "search"@];
    assert(known[0] == "config"@ && known[1] == "pull"@ && known[2] == "src"@ && known[3]
        == "find"@ && known[4] == "build"@ && known[5] == "search"@);
    assert(forall|i: int| 0 <= i < 6 ==> known.contains(#[trigger] known[i]));
}

/// A source path never consists of one empty part.
pub proof fn law_source_path_is_not_blank(
    path: Seq<Seq<char>>,
    query: Option<Seq<char>>,
    demo_mode: bool,
)
    ensures
        route_of(path, query, demo_mode) matches ActionView::Source(parts) ==> parts != seq![""@],
{
    reveal_strlit("");
    reveal_strlit(".");
    assert("."@.len() != ""@.len());
    assert(seq![""@][0] == ""@);
    assert(seq!["."@][0] == "."@);
}

// --------------------------------------------------------------------------
// From a request to an action
// --------------------------------------------------------------------------

/// The parts of the path of a URL, and its query.
pub struct UrlPath {
    pub path: Vec<String>,
    pub query: Option<String>,
}

impl DeepView for UrlPath {
    type V = (Seq<Seq<char>>, Option<Seq<char>>);

    open spec fn deep_view(&self) -> (Seq<Seq<char>>, Option<Seq<char>>) {
        (self.path.deep_view(), self.query.deep_view())
    }
}

/// The parts of the path and the query that `url::parse_path` finds in a text.
pub uninterp spec fn url_path(uri: Seq<char>) -> Option<(Seq<Seq<char>>, Option<Seq<char>>)>;

/// Whether a text starts with a slash of either kind.
pub open spec fn starts_with_slash(s: Seq<char>) -> bool {
    s.len() > 0 && (s[0] == '/' || s[0] == '\\')
}

/// Whether a character stands for itself wherever it is in a URL.
pub open spec fn is_plain(c: char) -> bool {
    ('a' <= c && c <= 'z') || ('A' <= c && c <= 'Z') || ('0' <= c && c <= '9') || c == '_' || c
        == '-' || c == '.' || c == '/'
}

/// Whether a text is a path of plain characters, with no part to be resolved.
pub open spec fn is_plain_path(s: Seq<char>) -> bool {
    &&& s.len() > 0
    &&& s[0] == '/'
    &&& forall|i: int| 0 <= i < s.len() ==> is_plain(#[trigger] s[i])
    &&& !split(s.skip(1), '/').contains("."@)
    &&& !split(s.skip(1), '/').contains(".."@)
}

/// Whether a text is a query of plain characters, keys and values.
pub open spec fn is_plain_query(s: Seq<char>) -> bool {
    forall|i: int| 0 <= i < s.len() ==> is_plain(#[trigger] s[i]) || s[i] == '=' || s[i] == '&' || s[i] == ':'
}

/// Whether `url` is what a text holds, if the text is a path of plain characters,
/// alone or in front of a plain query.
pub open spec fn is_taken_apart(
    uri: Seq<char>,
    url: Option<(Seq<Seq<char>>, Option<Seq<char>>)>,
) -> bool {
    &&& is_plain_path(uri) ==> url == Some((split(uri.skip(1), '/'), None::<Seq<char>>))
    &&& forall|path: Seq<char>, query: Seq<char>|
        is_plain_path(path) && is_plain_query(query) && uri == #[trigger] (path.push('?') + query)
            ==> url == Some((split(path.skip(1), '/'), Some(query)))
}

/// `url::parse_path`, without the fragment: the parts of the path and the query,
/// as a function of the text. There is a result exactly if the text starts with a
/// slash of either kind. A path of plain characters is split at its slashes, and a
/// plain query behind it is taken as it stands; how other characters are encoded,
/// and `.` and `..` resolved, is left to `url`.
#[verifier::external_body]
pub(crate) fn parse_url_path(uri: &str) -> (r: Option<UrlPath>)
    ensures
        r.deep_view() == url_path(uri@),
        r is Some <==> starts_with_slash(uri@),
        is_taken_apart(uri@, r.deep_view()),
{
    let (path, query, _) = url::parse_path(uri).ok()?;
    Some(UrlPath { path, query })
}

/// What the parts of a path and a query ask for, if the path can be routed.
pub open spec fn routed(
    url: Option<(Seq<Seq<char>>, Option<Seq<char>>)>,
    demo_mode: bool,
) -> Option<ActionView> {
    match url {
        Some((path, query)) => if is_routable(path) {
            Some(route_of(path, query, demo_mode))
        } else {
            None
        },
        None => None,
    }
}

/// What the parts of a path and a query ask for, if the path can be routed.
pub fn route_url(url: Option<UrlPath>, demo_mode: bool) -> (r: Option<Action>)
    ensures
        r.deep_view() == routed(url.deep_view(), demo_mode),
{
    match url {
        Some(UrlPath { path, query }) => {
            assert(path.len() == path.deep_view().len());
            if path.len() == 1 && same_text(path[0].as_str(), "data") {
                proof {
                    reveal_strlit("data");
                    reveal_strlit("index.html");
                    reveal_strlit("");
                    assert(path.deep_view()[0] == path[0]@);
                    assert("data"@.len() == 4 && "index.html"@.len() == 10 && ""@.len() == 0);
                }
                None
            } else {
                proof {
                    if path.len() == 1 {
                        assert(path.deep_view()[0] == path[0]@);
                    }
                }
                Some(route_path(&path, query, demo_mode))
            }
        },
        None => None,
    }
}

/// What a request asks for, by the path and query of its URL. There is no answer
/// to one that does not start with a slash, nor to one for data that does not say
/// which data.
pub fn route(uri_path: &str, demo_mode: bool) -> (r: Option<Action>)
    ensures
        r.deep_view() == routed(url_path(uri_path@), demo_mode),
        r is Some ==> starts_with_slash(uri_path@),
        is_plain_path(uri_path@) ==> r.deep_view() == routed(
            Some((split(uri_path@.skip(1), '/'), None)),
            demo_mode,
        ),
        forall|path: Seq<char>, query: Seq<char>|
            is_plain_path(path) && is_plain_query(query) && uri_path@ == #[trigger] (path.push('?')
                + query) ==> r.deep_view() == routed(
                Some((split(path.skip(1), '/'), Some(query))),
                demo_mode,
            ),
{
    let url = parse_url_path(uri_path);
    route_url(url, demo_mode)
}

/// Whether a path asks for some data.
pub open spec fn asks_for(path: Seq<Seq<char>>, what: Seq<char>) -> bool {
    path.len() >= 2 && path[0] == "data"@ && path[1] == what
}

/// Each request is answered by its name, with its query or with the rest of its
/// path: data by the name behind `data`, lines of text by `plain_text`, and files of
/// the client by `static`. The name alone counts, whatever follows it.
pub proof fn law_requests_go_by_name(
    path: Seq<Seq<char>>,
    query: Option<Seq<char>>,
    demo_mode: bool,
)
    ensures
        asks_for(path, "config"@) ==> route_of(path, query, demo_mode) == ActionView::Config,
        asks_for(path, "pull"@) ==> route_of(path, query, demo_mode) == ActionView::Pull(query),
        asks_for(path, "find"@) ==> route_of(path, query, demo_mode) == ActionView::Find(query),
        asks_for(path, "search"@) ==> route_of(path, query, demo_mode) == ActionView::Search(query),
        asks_for(path, "build"@) ==> route_of(path, query, true) == ActionView::Test,
        asks_for(path, "build"@) ==> route_of(path, query, false) == ActionView::Build,
        asks_for(path, "src"@) && !(path.len() == 3 && path[2] == ""@) ==> route_of(
            path,
            query,
            demo_mode,
        ) == ActionView::Source(path.skip(2)),
        asks_for(path, "src"@) && path.len() == 3 && path[2] == ""@ ==> route_of(
            path,
            query,
            demo_mode,
        ) == ActionView::Source(seq!["."@]),
        path.len() > 0 && path[0] == "plain_text"@ ==> route_of(path, query, demo_mode)
            == ActionView::PlainText(query),
        path.len() > 0 && path[0] == "static"@ ==> route_of(path, query, demo_mode)
            == ActionView::Static(path.skip(1)),
        path.len() == 0 ==> route_of(path, query, demo_mode) == ActionView::Index,
{
    reveal_strlit("data");
    reveal_strlit("config");
    reveal_strlit("pull");
    reveal_strlit("find");
    reveal_strlit("search");
    reveal_strlit("build");
    reveal_strlit("src");
    reveal_strlit("plain_text");
    reveal_strlit("static");
    reveal_strlit("build_updates");
    reveal_strlit("edit");
    reveal_strlit("index.html");
    reveal_strlit("");
    assert("config"@[0] == 'c' && "pull"@[0] == 'p' && "find"@[0] == 'f' && "build"@[0] == 'b');
    assert("search"@[0] == 's' && "search"@[1] == 'e' && "src"@[0] == 's' && "src"@[1] == 'r');
    assert("data"@[0] == 'd' && "plain_text"@[0] == 'p' && "static"@[0] == 's');
    assert("index.html"@[0] == 'i' && "build_updates"@[0] == 'b' && "edit"@[0] == 'e');
    assert(""@.len() == 0 && "data"@.len() == 4 && "plain_text"@.len() == 10 && "static"@.len() == 6);
    if path.len() == 3 {
        assert(path.skip(2) == seq![path[2]]);
    }
    if asks_for(path, "src"@) && path.skip(2).len() == 1 {
        assert(path.skip(2)[0] == path[2]);
    }
}

/// There is no answer exactly to a text that is no path, and to `data` alone.
pub proof fn law_only_bare_data_has_no_answer(
    url: Option<(Seq<Seq<char>>, Option<Seq<char>>)>,
    demo_mode: bool,
)
    ensures
        routed(url, demo_mode) is None <==> (url is None || url->Some_0.0 == seq!["data"@]),
        routed(url, demo_mode) matches Some(action) ==> action == route_of(
            url->Some_0.0,
            url->Some_0.1,
            demo_mode,
        ),
{
    reveal_strlit("data");
    reveal_strlit("index.html");
    reveal_strlit("");
    assert("data"@.len() == 4 && "index.html"@.len() == 10 && ""@.len() == 0);
    if let Some((path, query)) = url {
        if path.len() == 1 && path[0] == "data"@ {
            assert(path == seq!["data"@]);
        }
        assert(seq!["data"@][0] == "data"@);
    }
}

/// The view of an action shows what it asks for, with its query or its path.
pub proof fn law_action_view_shows_everything(action: Action, url: UrlPath)
    ensures
        match action {
            Action::Index => action.deep_view() == ActionView::Index,
            Action::Config => action.deep_view() == ActionView::Config,
            Action::Pull(query) => action.deep_view() == ActionView::Pull(query.deep_view()),
            Action::Source(path) => action.deep_view() == ActionView::Source(path.deep_view()),
            Action::Find(query) => action.deep_view() == ActionView::Find(query.deep_view()),
            Action::Test => action.deep_view() == ActionView::Test,
            Action::Build => action.deep_view() == ActionView::Build,
            Action::BuildUpdates => action.deep_view() == ActionView::BuildUpdates,
            Action::Edit(query) => action.deep_view() == ActionView::Edit(query.deep_view()),
            Action::Search(query) => action.deep_view() == ActionView::Search(query.deep_view()),
            Action::PlainText(query) => action.deep_view() == ActionView::PlainText(
                query.deep_view(),
            ),
            Action::Static(path) => action.deep_view() == ActionView::Static(path.deep_view()),
        },
        url.deep_view().0 == url.path.deep_view(),
        url.deep_view().1 == url.query.deep_view(),
{
}

} // verus!
