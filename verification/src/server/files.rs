//! Answers that hold a file.

use vstd::prelude::*;

use crate::file_controller::file_cache::{
    bytes_read, bytes_view, file_shown, is_total, lines_view, text_read, text_view, CacheView,
};
use crate::file_controller::FileController;
use crate::path::{components_of, extension_of, join_parts, join_path, parent_of};
use crate::path::{
    has_parent, is_name, is_place, law_extension_follows_the_last_dot,
    law_joined_name_is_last_component, law_joined_names_follow,
    law_trailing_slash_is_no_component, lemma_components_occur, path_components, path_extension, path_join, path_join_all,
    path_parent,
};
use crate::server::reply::{ContentType, Failure, Page, Status};
use crate::server::reply::{server_failure, FailureView};
use crate::text::{holds, occurs_at};
use crate::text::{same_text, text_bytes, text_holds};

verus! {

// --------------------------------------------------------------------------
// Files of the client
// --------------------------------------------------------------------------

/// The directory that holds the client: `static`, beside the running program.
pub open spec fn static_dir(program: Seq<char>) -> Option<Seq<char>> {
    if has_parent(program) {
        Some(path_join(path_parent(program), "static"@))
    } else {
        None
    }
}

/// The directory that holds the client, if the program lies in a directory.
pub fn static_path(program: &str) -> (r: Option<String>)
    ensures
        r.deep_view() == static_dir(program@),
        r is Some <==> has_parent(program@),
{
    match parent_of(program) {
        Some(dir) => Some(join_path(dir.as_str(), "static")),
        None => None,
    }
}

/// Whether `r` is the page that starts the client, given its text.
pub open spec fn is_index_page(
    text: Result<Seq<char>, Seq<char>>,
    r: Result<Page, Failure>,
) -> bool {
    match text {
        Ok(text) => r matches Ok(page) && page.content_type == ContentType::Html && page.body@
            == vstd::utf8::encode_utf8(text),
        Err(msg) => r matches Err(failure) && failure@ == server_failure(msg),
    }
}

/// The page that starts the client, given its text.
pub fn index_page(text: Result<String, String>) -> (r: Result<Page, Failure>)
    ensures
        is_index_page(text_view(text), r),
{
    match text {
        Ok(text) => Ok(Page { content_type: ContentType::Html, body: text_bytes(text.as_str()) }),
        Err(msg) => Err(Failure::new(msg)),
    }
}

/// What a file of the client is, by its extension.
pub open spec fn type_by_extension(extension: Option<Seq<char>>) -> ContentType {
    match extension {
        Some(e) => if e == "html"@ {
            ContentType::Html
        } else if e == "css"@ {
            ContentType::Css
        } else if e == "json"@ {
            ContentType::Json
        } else {
            ContentType::OctetStream
        },
        None => ContentType::OctetStream,
    }
}

/// What a file of the client is, by its path.
pub fn content_type_of(path: &str) -> (r: ContentType)
    ensures
        r == type_by_extension(path_extension(path@)),
{
    match extension_of(path) {
        Some(e) => if same_text(e.as_str(), "html") {
            ContentType::Html
        } else if same_text(e.as_str(), "css") {
            ContentType::Css
        } else if same_text(e.as_str(), "json") {
            ContentType::Json
        } else {
            ContentType::OctetStream
        },
        None => ContentType::OctetStream,
    }
}

/// What a client is told of a file that does not exist.
pub open spec fn page_not_found() -> FailureView {
    FailureView { status: Status::NotFound, msg: "Page not found by the rust server"@ }
}

/// Whether `r` is a file of the client, given its path and its bytes.
pub open spec fn is_static_page(
    path: Seq<char>,
    bytes: Result<Seq<u8>, Seq<char>>,
    r: Result<Page, Failure>,
) -> bool {
    match bytes {
        Ok(bytes) => r matches Ok(page) && page.content_type == type_by_extension(
            path_extension(path),
        ) && page.body@ == bytes,
        Err(_) => r matches Err(failure) && failure@ == page_not_found(),
    }
}

/// A file of the client, given its path and its bytes.
pub fn static_page(path: &str, bytes: Result<Vec<u8>, String>) -> (r: Result<Page, Failure>)
    ensures
        is_static_page(path@, bytes_view(bytes), r),
{
    let content_type = content_type_of(path);
    match bytes {
        Ok(body) => Ok(Page { content_type, body }),
        Err(_) => Err(
            Failure {
                status: Status::NotFound,
                msg: "Page not found by the rust server".to_owned(),
            },
        ),
    }
}

/// Answers with the page that starts the client.
pub fn handle_index(controller: &mut FileController, static_dir: &str) -> (r: Result<Page, Failure>)
    ensures
        exists|text: Result<Seq<char>, Seq<char>>| #[trigger]
            text_read(
                old(controller).cache@,
                final(controller).cache@,
                path_join(static_dir@, "index.html"@),
                text,
            ) && is_index_page(text, r),
        final(controller).highlighter == old(controller).highlighter,
{
    let path = join_path(static_dir, "index.html");
    let text = controller.cache.get_text(path.as_str());
    assert(text_read(old(controller).cache@, controller.cache@, path@, text_view(text)));
    index_page(text)
}

/// Answers with a file of the client, by the parts of its path.
pub fn handle_static(controller: &mut FileController, static_dir: &str, parts: &Vec<String>) -> (r:
    Result<Page, Failure>)
    ensures
        exists|bytes: Result<Seq<u8>, Seq<char>>| #[trigger]
            bytes_read(
                old(controller).cache@,
                final(controller).cache@,
                path_join_all(static_dir@, parts.deep_view()),
                bytes,
            ) && is_static_page(path_join_all(static_dir@, parts.deep_view()), bytes, r),
        final(controller).highlighter == old(controller).highlighter,
{
    let path = join_parts(static_dir, parts, 0);
    assert(parts.deep_view().skip(0) == parts.deep_view());
    let bytes = controller.cache.get_bytes(path.as_str());
    assert(bytes_read(old(controller).cache@, controller.cache@, path@, bytes_view(bytes)));
    static_page(path.as_str(), bytes)
}

// --------------------------------------------------------------------------
// Source files
// --------------------------------------------------------------------------

/// A source file, with its path by components and the lines to show for it, or
/// the listing of a directory.
pub enum SourceResult<D> {
    Source { path: Vec<String>, lines: Vec<String> },
    Directory(D),
}

/// Whether a part of a path may lead out of the source directory.
pub open spec fn is_bad_part(part: Seq<char>) -> bool {
    holds(part, ".."@) || part == "/"@
}

/// The path that the parts of a request make up. An empty part at the front
/// stands for the root.
pub open spec fn path_of_parts(parts: Seq<Seq<char>>) -> Seq<char> {
    if parts[0].len() == 0 {
        path_join_all("/"@, parts.skip(1))
    } else {
        path_join_all(Seq::empty(), parts)
    }
}

/// The source path that a request names, or the failure if it has a part that
/// may lead out of the source directory.
pub open spec fn source_path_of(parts: Seq<Seq<char>>) -> Result<Seq<char>, FailureView> {
    if exists|i: int| 0 <= i < parts.len() && is_bad_part(#[trigger] parts[i]) {
        Err(server_failure("Bad path, found `..`"@))
    } else {
        Ok(path_of_parts(parts))
    }
}

/// The view of a path, or of the failure to make one.
pub open spec fn path_view(r: Result<String, Failure>) -> Result<Seq<char>, FailureView> {
    match r {
        Ok(path) => Ok(path@),
        Err(failure) => Err(failure@),
    }
}

/// The source path that a request names by its parts.
pub fn source_path(parts: &Vec<String>) -> (r: Result<String, Failure>)
    requires
        parts.len() > 0,
    ensures
        path_view(r) == source_path_of(parts.deep_view()),
{
    let ghost all = parts.deep_view();
    assert(all.len() == parts.len());
    let mut i: usize = 0;
    while i < parts.len()
        invariant
            i <= parts.len(),
            all == parts.deep_view(),
            forall|j: int| 0 <= j < i ==> !is_bad_part(#[trigger] all[j]),
        decreases parts.len() - i,
    {
        assert(all[i as int] == parts[i as int]@);
        if text_holds(parts[i].as_str(), "..") || same_text(parts[i].as_str(), "/") {
            assert(is_bad_part(all[i as int]));
            return Err(Failure::new("Bad path, found `..`".to_owned()));
        }
        i += 1;
    }
    assert(all[0] == parts[0]@);
    proof {
        reveal_strlit("");
        if all[0].len() == 0 {
            assert(all[0] == ""@);
        }
        assert(""@ == Seq::<char>::empty());
        assert(all.skip(0) == all);
    }
    if same_text(parts[0].as_str(), "") {
        Ok(join_parts("/", parts, 1))
    } else {
        Ok(join_parts("", parts, 0))
    }
}

/// What is answered for a source file, given the lines to show for it.
pub open spec fn is_source_reply<D>(
    path: Seq<char>,
    shown: Result<Seq<Seq<char>>, Seq<char>>,
    r: Result<SourceResult<D>, Failure>,
) -> bool {
    match shown {
        Ok(lines) => r matches Ok(SourceResult::Source { path: p, lines: l }) && p.deep_view()
            == path_components(path) && l.deep_view() == lines,
        Err(msg) => r matches Err(failure) && failure@ == server_failure(msg),
    }
}

/// What is answered for a source file, given the lines to show for it.
pub fn source_reply<D>(path: &str, shown: Result<Vec<String>, String>) -> (r: Result<
    SourceResult<D>,
    Failure,
>)
    ensures
        is_source_reply(path@, lines_view(shown), r),
{
    match shown {
        Ok(lines) => Ok(SourceResult::Source { path: components_of(path), lines }),
        Err(msg) => Err(Failure::new(msg)),
    }
}

/// What is answered for a directory, given its listing.
pub open spec fn is_directory_reply<D>(
    listing: Result<D, String>,
    r: Result<SourceResult<D>, Failure>,
) -> bool {
    match listing {
        Ok(listing) => r == Ok::<SourceResult<D>, Failure>(SourceResult::Directory(listing)),
        Err(msg) => r matches Err(failure) && failure@ == server_failure(msg@),
    }
}

/// The outcome of answering with a source file.
pub open spec fn source_shown<D, F: Fn(String, String) -> String>(
    highlighter: F,
    before: CacheView,
    after: CacheView,
    path: Seq<char>,
    r: Result<SourceResult<D>, Failure>,
) -> bool {
    exists|shown: Result<Seq<Seq<char>>, Seq<char>>| #[trigger]
        file_shown(highlighter, before, after, path, shown) && is_source_reply(path, shown, r)
}

/// Answers with a source file, or with a directory if there is a listing for the
/// path. A path that may lead out of the source directory is refused. Neither for
/// that nor for a directory is anything read.
pub fn handle_src<D, F: Fn(String, String) -> String>(
    controller: &mut FileController,
    parts: &Vec<String>,
    listing: Option<Result<D, String>>,
    highlighter: &F,
) -> (r: Result<SourceResult<D>, Failure>)
    requires
        parts.len() > 0,
        is_total(*highlighter),
    ensures
        match source_path_of(parts.deep_view()) {
            Err(failure) => (r matches Err(f) && f@ == failure) && *final(controller) == *old(
                controller,
            ),
            Ok(path) => match listing {
                Some(listing) => is_directory_reply(listing, r) && *final(controller) == *old(
                    controller,
                ),
                None => source_shown(
                    *highlighter,
                    old(controller).cache@,
                    final(controller).cache@,
                    path,
                    r,
                ),
            },
        },
        final(controller).highlighter == old(controller).highlighter,
{
    let path = match source_path(parts) {
        Ok(path) => path,
        Err(failure) => {
            return Err(failure);
        },
    };
    assert(source_path_of(parts.deep_view()) == Ok::<Seq<char>, FailureView>(path@));
    match listing {
        Some(Ok(listing)) => Ok(SourceResult::Directory(listing)),
        Some(Err(msg)) => Err(Failure::new(msg)),
        None => {
            let shown = controller.get_highlighted(path.as_str(), highlighter);
            assert(file_shown(
                *highlighter,
                old(controller).cache@,
                controller.cache@,
                path@,
                lines_view(shown),
            ));
            source_reply(path.as_str(), shown)
        },
    }
}

/// Two dots stand together in a text.
spec fn has_dots_at(s: Seq<char>, i: int) -> bool {
    0 <= i && i + 1 < s.len() && s[i] == '.' && s[i + 1] == '.'
}

proof fn lemma_dots(s: Seq<char>)
    ensures
        holds(s, ".."@) <==> exists|i: int| has_dots_at(s, i),
{
    reveal_strlit("..");
    assert forall|i: int| has_dots_at(s, i) == #[trigger] occurs_at(s, ".."@, i) by {
        if 0 <= i && i + 2 <= s.len() {
            let part = s.subrange(i, i + 2);
            assert(part[0] == s[i] && part[1] == s[i + 1]);
            assert(s[i] == '.' && s[i + 1] == '.' ==> part == ".."@);
        }
    }
    if exists|i: int| has_dots_at(s, i) {
        let i = choose|i: int| has_dots_at(s, i);
        assert(occurs_at(s, ".."@, i));
    }
}

proof fn lemma_join_adds_no_dots(path: Seq<char>, part: Seq<char>)
    requires
        !holds(path, ".."@),
        !holds(part, ".."@),
    ensures
        !holds(path_join(path, part), ".."@),
{
    let whole = path_join(path, part);
    lemma_dots(path);
    lemma_dots(part);
    lemma_dots(whole);
    assert forall|i: int| !has_dots_at(whole, i) by {
        if has_dots_at(whole, i) {
            let start = whole.len() - part.len();
            assert(!has_dots_at(path, i));
            assert(!has_dots_at(part, i - start));
            assert(start > 0 ==> whole[start - 1] == '/');
        }
    }
}

proof fn lemma_join_all_adds_no_dots(path: Seq<char>, parts: Seq<Seq<char>>)
    requires
        !holds(path, ".."@),
        forall|i: int| 0 <= i < parts.len() ==> !holds(#[trigger] parts[i], ".."@),
    ensures
        !holds(path_join_all(path, parts), ".."@),
    decreases parts.len(),
{
    if parts.len() > 0 {
        assert forall|i: int| 0 <= i < parts.len() - 1 implies !holds(
            #[trigger] parts.drop_last()[i],
            ".."@,
        ) by {
            assert(parts.drop_last()[i] == parts[i]);
        }
        lemma_join_all_adds_no_dots(path, parts.drop_last());
        assert(parts.last() == parts[parts.len() - 1]);
        lemma_join_adds_no_dots(path_join_all(path, parts.drop_last()), parts.last());
    }
}

/// No path that a request names holds `..`, so none has a component that leads up.
pub proof fn law_source_path_stays_below(parts: Seq<Seq<char>>)
    requires
        parts.len() > 0,
    ensures
        source_path_of(parts) matches Ok(path) ==> !holds(path, ".."@) && !path_components(
            path,
        ).contains(".."@),
{
    if let Ok(path) = source_path_of(parts) {
        lemma_components_occur(path);
    }
    if source_path_of(parts) is Ok {
        assert forall|i: int| 0 <= i < parts.len() implies !holds(#[trigger] parts[i], ".."@) by {
            assert(!is_bad_part(parts[i]));
        }
        reveal_strlit("/");
        lemma_dots("/"@);
        lemma_dots(Seq::empty());
        assert forall|i: int| 0 <= i < parts.len() - 1 implies !holds(
            #[trigger] parts.skip(1)[i],
            ".."@,
        ) by {
            assert(parts.skip(1)[i] == parts[i + 1]);
        }
        lemma_join_all_adds_no_dots("/"@, parts.skip(1));
        lemma_join_all_adds_no_dots(Seq::empty(), parts);
    }
}

/// A path with `..` in any of its parts is refused.
pub proof fn law_parent_directory_is_refused(parts: Seq<Seq<char>>, i: int)
    requires
        0 <= i < parts.len(),
        holds(parts[i], ".."@),
    ensures
        source_path_of(parts) == Err::<Seq<char>, FailureView>(
            server_failure("Bad path, found `..`"@),
        ),
{
    assert(is_bad_part(parts[i]));
}

/// A source path has the components that the request names, in their order, from the
/// root on if an empty part stands at the front. A request is refused exactly if a
/// part holds `..` or is a slash.
pub proof fn law_source_path_has_its_parts(parts: Seq<Seq<char>>)
    requires
        parts.len() > 0,
    ensures
        source_path_of(parts) is Err <==> exists|i: int|
            0 <= i < parts.len() && (holds(#[trigger] parts[i], ".."@) || parts[i] == "/"@),
        source_path_of(parts) matches Err(failure) ==> failure == (FailureView {
            status: Status::InternalServerError,
            msg: "Bad path, found `..`"@,
        }),
        source_path_of(parts) is Ok && (forall|i: int|
            0 <= i < parts.len() ==> is_name(#[trigger] parts[i])) ==> path_components(
            source_path_of(parts)->Ok_0,
        ) == parts,
        source_path_of(parts) is Ok && parts[0].len() == 0 && (forall|i: int|
            1 <= i < parts.len() ==> is_name(#[trigger] parts[i])) ==> path_components(
            source_path_of(parts)->Ok_0,
        ) == seq!["/"@] + parts.skip(1),
{
    reveal_strlit("/");
    assert("/"@ == seq!['/']);
    law_trailing_slash_is_no_component(Seq::empty());
    if exists|i: int| 0 <= i < parts.len() && (holds(#[trigger] parts[i], ".."@) || parts[i] == "/"@) {
        let i = choose|i: int|
            0 <= i < parts.len() && (holds(#[trigger] parts[i], ".."@) || parts[i] == "/"@);
        assert(is_bad_part(parts[i]));
    }
    if forall|i: int| 0 <= i < parts.len() ==> is_name(#[trigger] parts[i]) {
        assert(is_name(parts[0]));
        law_joined_names_follow(Seq::empty(), parts);
        assert(Seq::<Seq<char>>::empty() + parts == parts);
    }
    if parts[0].len() == 0 && (forall|i: int| 1 <= i < parts.len() ==> is_name(#[trigger] parts[i])) {
        let rest = parts.skip(1);
        assert forall|i: int| 0 <= i < rest.len() implies is_name(#[trigger] rest[i]) by {
            assert(rest[i] == parts[i + 1]);
        }
        law_joined_names_follow("/"@, rest);
    }
}

/// A file of the client is HTML, CSS or JSON exactly if its name ends so, and else
/// just bytes.
pub proof fn law_content_type_goes_by_name(dir: Seq<char>, stem: Seq<char>, ext: Seq<char>)
    requires
        is_place(dir),
        stem.len() > 0,
        !stem.contains('/'),
        ext.len() > 0,
        !ext.contains('/'),
        !ext.contains('.'),
    ensures
        ({
            let content_type = type_by_extension(path_extension(dir + (stem.push('.') + ext)));
            &&& content_type == ContentType::Html <==> ext == "html"@
            &&& content_type == ContentType::Css <==> ext == "css"@
            &&& content_type == ContentType::Json <==> ext == "json"@
            &&& content_type == ContentType::OctetStream <==> ext != "html"@ && ext != "css"@ && ext
                != "json"@
        }),
        type_by_extension(path_extension(dir + ext)) == ContentType::OctetStream,
        type_by_extension(path_extension(dir + (seq!['.'] + ext))) == ContentType::OctetStream,
{
    reveal_strlit("html");
    reveal_strlit("css");
    reveal_strlit("json");
    assert("html"@[0] == 'h' && "css"@[0] == 'c' && "json"@[0] == 'j');
    let name = stem.push('.') + ext;
    if name == seq!['.', '.'] {
        assert(name[name.len() - 1] == ext[ext.len() - 1]);
        assert(ext.contains(ext[ext.len() - 1]));
    }
    law_extension_follows_the_last_dot(dir, stem, ext);
}

/// The page that starts the client is its text, as HTML; a file of the client is its
/// bytes, and one that cannot be read is not found.
pub proof fn law_pages_are_files(
    text: Result<Seq<char>, Seq<char>>,
    index: Result<Page, Failure>,
    path: Seq<char>,
    bytes: Result<Seq<u8>, Seq<char>>,
    page: Result<Page, Failure>,
)
    requires
        is_index_page(text, index),
        is_static_page(path, bytes, page),
    ensures
        index is Ok <==> text is Ok,
        index matches Ok(p) ==> p.content_type == ContentType::Html && p.body@
            == vstd::utf8::encode_utf8(text->Ok_0),
        index matches Err(f) ==> f.status == Status::InternalServerError && f.msg@ == text->Err_0,
        page is Ok <==> bytes is Ok,
        page matches Ok(p) ==> p.body@ == bytes->Ok_0 && p.content_type == type_by_extension(
            path_extension(path),
        ),
        page matches Err(f) ==> f.status == Status::NotFound && f.msg@
            == "Page not found by the rust server"@,
{
}

/// A source file is answered with its components and the lines shown for it, a
/// directory with its listing, and an error as a failure of the server.
pub proof fn law_source_is_answered<D>(
    path: Seq<char>,
    shown: Result<Seq<Seq<char>>, Seq<char>>,
    source: Result<SourceResult<D>, Failure>,
    listing: Result<D, String>,
    directory: Result<SourceResult<D>, Failure>,
)
    requires
        is_source_reply(path, shown, source),
        is_directory_reply(listing, directory),
    ensures
        match shown {
            Ok(lines) => source matches Ok(SourceResult::Source { path: p, lines: l }) && p.deep_view()
                == path_components(path) && l.deep_view() == lines,
            Err(e) => source matches Err(f) && f.status == Status::InternalServerError && f.msg@ == e,
        },
        match listing {
            Ok(listed) => directory matches Ok(SourceResult::Directory(d)) && d == listed,
            Err(e) => directory matches Err(f) && f.status == Status::InternalServerError && f.msg@
                == e@,
        },
{
}

/// The client lies in a directory `static` beside the program.
pub proof fn law_client_lies_beside_the_program(program: Seq<char>)
    ensures
        static_dir(program) is Some <==> has_parent(program),
        static_dir(program) matches Some(dir) ==> path_components(dir) == path_components(
            path_parent(program),
        ).push("static"@),
{
    reveal_strlit("static");
    assert(is_name("static"@)) by {
        assert("static"@.len() == 6);
        assert(!"static"@.contains('/'));
    }
    law_joined_name_is_last_component(path_parent(program), "static"@);
}

/// The view of a source path is the path, or why there is none.
pub proof fn law_path_view_shows_everything(r: Result<String, Failure>)
    ensures
        match r {
            Ok(path) => path_view(r) == Ok::<Seq<char>, FailureView>(path@),
            Err(failure) => path_view(r) == Err::<Seq<char>, FailureView>(failure@),
        },
{
}

} // verus!
