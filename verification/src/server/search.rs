//! Answers to what a client looks for.

use vstd::prelude::*;
use vstd::utf8::encode_utf8;

use crate::file_controller::file_cache::{is_total, lines_read, text_view, CacheView};
use crate::file_controller::results::{FindResult, SearchResult};
use crate::file_controller::outcome::{defs_found, find_view, impls_found, name_found, search_view};
use crate::file_controller::FileController;
use crate::file_controller::showing::law_lines_of_a_file;
use crate::file_controller::vfs::{
    law_adjacent_lines_join, law_lines_in_order_are_there, line_starts, text_between, ContentsView,
};
use crate::path::path_components;
use crate::number::{decimal, is_digit, law_number_round_trip, lemma_decimal, number_of};
use crate::number::{parse_u64, parse_usize};
use crate::server::query::parse_query_value;
use crate::server::query::{law_value_is_read_back, query_value};
use crate::server::reply::{answer, Failure};
use crate::server::reply::{answered, server_failure, FailureView, Status};
use crate::text::joined;
use crate::text::{find, lemma_find_from, occurs_at};

verus! {

// --------------------------------------------------------------------------
// Definitions
// --------------------------------------------------------------------------

/// What a search is for: definitions with a name, or the one with an identifier.
pub enum SearchRequest {
    Name(String),
    Id(u64),
}

/// The values of a `SearchRequest`.
pub enum SearchAsk {
    Name(Seq<char>),
    Id(u64),
}

impl View for SearchRequest {
    type V = SearchAsk;

    open spec fn view(&self) -> SearchAsk {
        match *self {
            SearchRequest::Name(name) => SearchAsk::Name(name@),
            SearchRequest::Id(id) => SearchAsk::Id(id),
        }
    }
}

/// The identifier that a text holds.
pub open spec fn id_of(text: Seq<char>) -> Result<u64, FailureView> {
    match number_of(text) {
        Some(n) => if n <= u64::MAX {
            Ok(n as u64)
        } else {
            Err(server_failure("Bad id: "@ + text))
        },
        None => Err(server_failure("Bad id: "@ + text)),
    }
}

/// What a query searches for: `needle` names a definition, `id` gives its
/// identifier. It holds exactly one of the two.
pub open spec fn search_ask(query: Option<Seq<char>>) -> Result<SearchAsk, FailureView> {
    match (query_value(query, "needle="@), query_value(query, "id="@)) {
        (Some(needle), None) => Ok(SearchAsk::Name(needle)),
        (None, Some(id)) => match id_of(id) {
            Ok(id) => Ok(SearchAsk::Id(id)),
            Err(failure) => Err(failure),
        },
        _ => Err(server_failure("Bad search string"@)),
    }
}

/// The view of a search, or of why there is none.
pub open spec fn search_ask_view(r: Result<SearchRequest, Failure>) -> Result<
    SearchAsk,
    FailureView,
> {
    match r {
        Ok(request) => Ok(request@),
        Err(failure) => Err(failure@),
    }
}

/// The view of an identifier, or of why there is none.
pub open spec fn id_view(r: Result<u64, Failure>) -> Result<u64, FailureView> {
    match r {
        Ok(id) => Ok(id),
        Err(failure) => Err(failure@),
    }
}

/// The identifier that a text holds.
pub fn parse_id(text: &str) -> (r: Result<u64, Failure>)
    ensures
        id_view(r) == id_of(text@),
{
    match parse_u64(text) {
        Some(id) => Ok(id),
        None => Err(Failure::new(joined("Bad id: ", text))),
    }
}

/// What a query searches for.
pub fn parse_search(query: &Option<String>) -> (r: Result<SearchRequest, Failure>)
    ensures
        search_ask_view(r) == search_ask(query.deep_view()),
{
    match (parse_query_value(query, "needle="), parse_query_value(query, "id=")) {
        (Some(needle), None) => Ok(SearchRequest::Name(needle)),
        (None, Some(id)) => match parse_id(id.as_str()) {
            Ok(id) => Ok(SearchRequest::Id(id)),
            Err(failure) => Err(failure),
        },
        _ => Err(Failure::new("Bad search string".to_owned())),
    }
}

/// Answers a search for definitions.
pub fn handle_search<F: Fn(String, String) -> String>(
    controller: &mut FileController,
    query: &Option<String>,
    highlighter: &F,
) -> (r: Result<SearchResult, Failure>)
    requires
        is_total(*highlighter),
    ensures
        match search_ask(query.deep_view()) {
            Err(failure) => (r matches Err(f) && f@ == failure) && *final(controller) == *old(
                controller,
            ),
            Ok(SearchAsk::Name(name)) => exists|found: Result<SearchResult, String>|
                r == #[trigger] answered(found) && name_found(
                    *highlighter,
                    old(controller).highlighter.analysis,
                    old(controller).highlighter.project_dir@,
                    old(controller).cache@,
                    final(controller).cache@,
                    name,
                    search_view(found),
                ),
            Ok(SearchAsk::Id(id)) => exists|found: Result<SearchResult, String>|
                r == #[trigger] answered(found) && defs_found(
                    *highlighter,
                    old(controller).highlighter.analysis,
                    old(controller).highlighter.project_dir@,
                    old(controller).cache@,
                    final(controller).cache@,
                    seq![id],
                    search_view(found),
                ),
        },
        final(controller).highlighter == old(controller).highlighter,
{
    match parse_search(query) {
        Ok(SearchRequest::Name(name)) => {
            let found = controller.ident_search(name.as_str(), highlighter);
            answer(found)
        },
        Ok(SearchRequest::Id(id)) => {
            let found = controller.id_search(id, highlighter);
            answer(found)
        },
        Err(failure) => Err(failure),
    }
}

// --------------------------------------------------------------------------
// Implementations
// --------------------------------------------------------------------------

/// What a query looks for: the implementations for the definition with the
/// identifier that `impls` gives.
pub open spec fn find_ask(query: Option<Seq<char>>) -> Result<u64, FailureView> {
    match query_value(query, "impls="@) {
        Some(id) => id_of(id),
        None => Err(server_failure("Unknown argument to find"@)),
    }
}

/// The identifier of the definition whose implementations a query looks for.
pub fn parse_find(query: &Option<String>) -> (r: Result<u64, Failure>)
    ensures
        id_view(r) == find_ask(query.deep_view()),
{
    match parse_query_value(query, "impls=") {
        Some(id) => parse_id(id.as_str()),
        None => Err(Failure::new("Unknown argument to find".to_owned())),
    }
}

/// Answers a search for implementations.
pub fn handle_find<F: Fn(String, String) -> String>(
    controller: &mut FileController,
    query: &Option<String>,
    highlighter: &F,
) -> (r: Result<FindResult, Failure>)
    requires
        is_total(*highlighter),
    ensures
        match find_ask(query.deep_view()) {
            Err(failure) => (r matches Err(f) && f@ == failure) && *final(controller) == *old(
                controller,
            ),
            Ok(id) => exists|found: Result<FindResult, String>|
                r == #[trigger] answered(found) && impls_found(
                    *highlighter,
                    old(controller).highlighter.analysis,
                    old(controller).highlighter.project_dir@,
                    old(controller).cache@,
                    final(controller).cache@,
                    id,
                    find_view(found),
                ),
        },
        final(controller).highlighter == old(controller).highlighter,
{
    match parse_find(query) {
        Ok(id) => {
            let found = controller.find_impls(id, highlighter);
            answer(found)
        },
        Err(failure) => Err(failure),
    }
}

// --------------------------------------------------------------------------
// Lines of text
// --------------------------------------------------------------------------

/// Some lines of a file, from `line_start` to `line_end`, counted from one.
#[derive(Debug)]
pub struct TextResult {
    pub text: String,
    pub file_name: String,
    pub line_start: usize,
    pub line_end: usize,
}

/// A line that a client wants to see, counted from one, and its file.
pub struct TextRequest {
    pub file_name: String,
    pub line: usize,
}

/// The values of a `TextRequest`.
pub struct TextAsk {
    pub file_name: Seq<char>,
    pub line: usize,
}

impl View for TextRequest {
    type V = TextAsk;

    open spec fn view(&self) -> TextAsk {
        TextAsk { file_name: self.file_name@, line: self.line }
    }
}

/// The line that a query asks for: `file` names the file, `line` gives the number.
pub open spec fn text_ask(query: Option<Seq<char>>) -> Result<TextAsk, FailureView> {
    match (query_value(query, "file="@), query_value(query, "line="@)) {
        (Some(file_name), Some(line)) => match number_of(line) {
            Some(n) => if n <= usize::MAX {
                Ok(TextAsk { file_name, line: n as usize })
            } else {
                Err(server_failure("Bad line number: "@ + line))
            },
            None => Err(server_failure("Bad line number: "@ + line)),
        },
        _ => Err(server_failure("Bad query string"@)),
    }
}

/// The view of a request for lines, or of why there is none.
pub open spec fn text_ask_view(r: Result<TextRequest, Failure>) -> Result<TextAsk, FailureView> {
    match r {
        Ok(request) => Ok(request@),
        Err(failure) => Err(failure@),
    }
}

/// The line that a query asks for.
pub fn parse_text_request(query: &Option<String>) -> (r: Result<TextRequest, Failure>)
    ensures
        text_ask_view(r) == text_ask(query.deep_view()),
{
    match (parse_query_value(query, "file="), parse_query_value(query, "line=")) {
        (Some(file_name), Some(line)) => match parse_usize(line.as_str()) {
            Some(line) => Ok(TextRequest { file_name, line }),
            None => Err(Failure::new(joined("Bad line number: ", line.as_str()))),
        },
        _ => Err(Failure::new("Bad query string".to_owned())),
    }
}

/// The row, counted from zero, at which what is shown around a line starts: two
/// lines before it, as far as there are any.
pub open spec fn first_row(line: nat) -> nat {
    if line >= 3 {
        (line - 3) as nat
    } else {
        0
    }
}

/// The row, counted from zero, in front of which what is shown around a line
/// ends: two lines behind it.
pub open spec fn end_row(line: nat) -> nat {
    line + 2
}

/// A row as it is kept, in 32 bits.
pub open spec fn short_row(row: nat) -> nat {
    row % 0x1_0000_0000
}

/// Whether `r` is what is answered for some lines, given their text.
pub open spec fn is_text_reply(
    ask: TextAsk,
    text: Result<Seq<char>, Seq<char>>,
    r: Result<TextResult, Failure>,
) -> bool {
    match text {
        Ok(text) => {
            &&& r is Ok
            &&& r->Ok_0.text@ == text
            &&& r->Ok_0.file_name@ == ask.file_name
            &&& r->Ok_0.line_start == first_row(ask.line as nat) + 1
            &&& r->Ok_0.line_end == end_row(ask.line as nat)
        },
        Err(msg) => r matches Err(failure) && failure@ == server_failure(msg),
    }
}

/// What is answered for some lines, given their text.
pub fn text_reply(request: TextRequest, text: Result<String, String>) -> (r: Result<
    TextResult,
    Failure,
>)
    requires
        request.line <= usize::MAX - 2,
    ensures
        is_text_reply(request@, text_view(text), r),
{
    match text {
        Ok(text) => Ok(
            TextResult {
                text,
                file_name: request.file_name,
                line_start: request.line.saturating_sub(3) + 1,
                line_end: request.line + 2,
            },
        ),
        Err(msg) => Err(Failure::new(msg)),
    }
}

/// A row as it is kept, in 32 bits.
fn short_row_of(row: usize) -> (r: u32)
    ensures
        r as nat == short_row(row as nat),
{
    let wide: u64 = row as u64;
    assert(#[verifier::truncate] (wide as u32) == wide % 0x1_0000_0000) by (bit_vector);
    #[verifier::truncate]
    let short: u32 = wide as u32;
    short
}

/// Answers with a line of a file and two lines around it. The number of the line
/// leaves room for the two lines behind it.
pub fn handle_plain_text(controller: &mut FileController, query: &Option<String>) -> (r: Result<
    TextResult,
    Failure,
>)
    requires
        text_ask(query.deep_view()) matches Ok(ask) ==> ask.line <= usize::MAX - 2,
    ensures
        match text_ask(query.deep_view()) {
            Err(failure) => (r matches Err(f) && f@ == failure) && *final(controller) == *old(
                controller,
            ),
            Ok(ask) => exists|text: Result<Seq<char>, Seq<char>>| #[trigger]
                lines_read(
                    old(controller).cache@,
                    final(controller).cache@,
                    ask.file_name,
                    short_row(first_row(ask.line as nat)),
                    short_row(end_row(ask.line as nat)),
                    text,
                ) && is_text_reply(ask, text, r),
        },
        final(controller).highlighter == old(controller).highlighter,
{
    match parse_text_request(query) {
        Ok(request) => {
            let start = short_row_of(request.line.saturating_sub(3));
            let end = short_row_of(request.line + 2);
            let text = controller.get_lines(request.file_name.as_str(), start, end);
            assert(lines_read(
                old(controller).cache@,
                controller.cache@,
                request@.file_name,
                short_row(first_row(request.line as nat)),
                short_row(end_row(request.line as nat)),
                text_view(text),
            ));
            text_reply(request, text)
        },
        Err(failure) => Err(failure),
    }
}

// --------------------------------------------------------------------------
// What holds of queries and answers
// --------------------------------------------------------------------------

/// A query that consists of a key and a number.
proof fn lemma_number_is_read_back(key: Seq<char>, n: nat)
    requires
        key.len() > 0,
    ensures
        query_value(Some(key + decimal(n)), key) == Some(decimal(n)),
{
    lemma_decimal(n);
    let digits = decimal(n);
    assert(Seq::<char>::empty() + key + digits + Seq::<char>::empty() == key + digits);
    law_value_is_read_back(Seq::empty(), key, digits, Seq::empty());
}

/// The identifier under which a symbol is listed finds the symbol.
pub proof fn law_listed_id_is_searched_for(id: u64)
    ensures
        search_ask(Some("id="@ + decimal(id as nat))) == Ok::<SearchAsk, FailureView>(
            SearchAsk::Id(id),
        ),
        find_ask(Some("impls="@ + decimal(id as nat))) == Ok::<u64, FailureView>(id),
{
    reveal_strlit("id=");
    reveal_strlit("impls=");
    reveal_strlit("needle=");
    lemma_number_is_read_back("id="@, id as nat);
    lemma_number_is_read_back("impls="@, id as nat);
    law_number_round_trip(id as nat);
    lemma_decimal(id as nat);
    let query = "id="@ + decimal(id as nat);
    lemma_find_from(query, "needle="@, 0);
    if let Some(i) = find(query, "needle="@) {
        assert(query.subrange(i as int, (i + 7) as int)[0] == 'n');
        assert(query[i as int] == 'n');
        assert(i < 3 || is_digit(decimal(id as nat)[i - 3]));
    }
}

/// What is shown around a line of a text holds the line, behind two lines or as
/// many as there are, and in front of two lines or as many as there are.
pub proof fn law_context_holds_the_line(text: Seq<char>, line: nat)
    requires
        1 <= line <= line_starts(text).len(),
    ensures
        text_between(text, first_row(line), (line - 1) as nat) is Some,
        text_between(text, (line - 1) as nat, line) is Some,
        text_between(text, line, end_row(line)) is Some,
        text_between(text, first_row(line), end_row(line)) == Some(
            text_between(text, first_row(line), (line - 1) as nat)->Some_0 + text_between(
                text,
                (line - 1) as nat,
                line,
            )->Some_0 + text_between(text, line, end_row(line))->Some_0,
        ),
{
    law_lines_in_order_are_there(text, first_row(line), (line - 1) as nat);
    law_lines_in_order_are_there(text, (line - 1) as nat, line);
    law_lines_in_order_are_there(text, line, end_row(line));
    law_adjacent_lines_join(text, first_row(line), (line - 1) as nat, line);
    law_adjacent_lines_join(text, first_row(line), line, end_row(line));
}

/// A text with lines to show names its own rows: what is answered are the lines from
/// `line_start` to `line_end`, which are the two lines before the wanted one, as far
/// as there are any, the line itself, and the two behind it.
pub proof fn law_answer_holds_the_lines_it_names(
    before: CacheView,
    after: CacheView,
    ask: TextAsk,
    text: Result<Seq<char>, Seq<char>>,
    r: Result<TextResult, Failure>,
)
    requires
        ask.line + 2 <= u32::MAX,
        lines_read(
            before,
            after,
            ask.file_name,
            short_row(first_row(ask.line as nat)),
            short_row(end_row(ask.line as nat)),
            text,
        ),
        is_text_reply(ask, text, r),
    ensures
        match r {
            Ok(reply) => {
                &&& reply.file_name@ == ask.file_name
                &&& reply.line_end == ask.line + 2
                &&& ask.line >= 3 ==> reply.line_start == ask.line - 2
                &&& ask.line < 3 ==> reply.line_start == 1
                &&& after.files.contains_key(path_components(ask.file_name))
                &&& (after.files[path_components(ask.file_name)] matches ContentsView::Text(held)
                    && text_between(
                    held,
                    (reply.line_start - 1) as nat,
                    reply.line_end as nat,
                ) == Some(reply.text@))
            },
            Err(failure) => failure.status == Status::InternalServerError && text
                == Err::<Seq<char>, Seq<char>>(failure.msg@),
        },
        before.files.contains_key(path_components(ask.file_name)) ==> (
        before.files[path_components(ask.file_name)] matches ContentsView::Text(held) ==> (
        encode_utf8(held).len() <= u32::MAX && ask.line <= line_starts(held).len() ==> r is Ok)),
{
    let start = first_row(ask.line as nat);
    let end = end_row(ask.line as nat);
    assert(short_row(start) == start && short_row(end) == end);
    law_lines_of_a_file(before, after, ask.file_name, start, end, text);
    if before.files.contains_key(path_components(ask.file_name)) {
        if let ContentsView::Text(held) = before.files[path_components(ask.file_name)] {
            if ask.line <= line_starts(held).len() {
                law_lines_in_order_are_there(held, start, end);
            }
        }
    }
}

/// Rows beyond 32 bits wrap around, in the text alone: two lines that are as far apart
/// as there are rows are answered with the same lines.
pub proof fn law_rows_wrap_around(row: nat)
    ensures
        row <= u32::MAX ==> short_row(row) == row,
        short_row(row + 0x1_0000_0000) == short_row(row),
{
}

/// The file and the line in a query are read back.
pub proof fn law_wanted_line_is_read_back(file: Seq<char>, line: nat)
    requires
        !file.contains('&'),
        !file.contains('='),
        line <= usize::MAX,
    ensures
        text_ask(Some("file="@ + file + "&line="@ + decimal(line))) == Ok::<TextAsk, FailureView>(
            TextAsk { file_name: file, line: line as usize },
        ),
{
    reveal_strlit("file=");
    reveal_strlit("line=");
    reveal_strlit("&line=");
    let nothing = Seq::<char>::empty();
    let digits = decimal(line);
    let query = "file="@ + file + "&line="@ + digits;
    lemma_decimal(line);
    law_number_round_trip(line);
    assert(!digits.contains('&')) by {
        if digits.contains('&') {
            let k = choose|k: int| 0 <= k < digits.len() && digits[k] == '&';
            assert(is_digit(digits[k]));
        }
    }
    let tail = "&line="@ + digits;
    assert(tail[0] == '&');
    assert(nothing + "file="@ + file + tail == query);
    law_value_is_read_back(nothing, "file="@, file, tail);
    let front = "file="@ + file + seq!['&'];
    assert("&line="@ == seq!['&'] + "line="@);
    assert(front + "line="@ + digits + nothing == query);
    assert forall|i: int| 0 <= i < front.len() implies !occurs_at(
        front + "line="@ + digits + nothing,
        "line="@,
        i,
    ) by {
        if occurs_at(query, "line="@, i) {
            let part = query.subrange(i, i + 5);
            assert(part == "line="@);
            assert(part[4] == query[i + 4] && part[0] == query[i]);
            if i == 0 {
                assert(query[0] == 'f');
            } else if i + 4 < 5 + file.len() {
                assert(file[i - 1] == query[i + 4]);
                assert(file.contains(file[i - 1]));
            } else {
                assert(part[3] == query[i + 3] && part[2] == query[i + 2] && part[1] == query[i + 1]);
                let k = i + 4 - front.len();
                assert(query[i + 4] == "line="@[k] || k < 0);
            }
        }
    }
    law_value_is_read_back(front, "line="@, digits, nothing);
}

/// A query that names what it wants twice or not at all, or by something that is no
/// number, fails with a message that says so.
pub proof fn law_bad_queries_are_told_apart(query: Option<Seq<char>>)
    ensures
        ({
            let needle = query_value(query, "needle="@);
            let id = query_value(query, "id="@);
            &&& needle is Some == id is Some ==> search_ask(query) == Err::<SearchAsk, FailureView>(
                FailureView { status: Status::InternalServerError, msg: "Bad search string"@ },
            )
            &&& needle is Some && id is None ==> search_ask(query) == Ok::<SearchAsk, FailureView>(
                SearchAsk::Name(needle->Some_0),
            )
            &&& needle is None && id is Some && (number_of(id->Some_0) is None || number_of(
                id->Some_0,
            )->Some_0 > u64::MAX) ==> search_ask(query)
                == Err::<SearchAsk, FailureView>(
                FailureView {
                    status: Status::InternalServerError,
                    msg: "Bad id: "@ + id->Some_0,
                },
            )
            &&& needle is None && (id matches Some(text) && number_of(text) matches Some(n) && n
                <= u64::MAX) ==> search_ask(query) == Ok::<SearchAsk, FailureView>(
                SearchAsk::Id(number_of(id->Some_0)->Some_0 as u64),
            )
        }),
        match query_value(query, "impls="@) {
            None => find_ask(query) == Err::<u64, FailureView>(
                FailureView {
                    status: Status::InternalServerError,
                    msg: "Unknown argument to find"@,
                },
            ),
            Some(text) => {
                &&& number_of(text) is None || number_of(text)->Some_0 > u64::MAX ==> find_ask(query)
                    == Err::<u64, FailureView>(
                    FailureView { status: Status::InternalServerError, msg: "Bad id: "@ + text },
                )
                &&& (number_of(text) matches Some(n) && n <= u64::MAX) ==> find_ask(query) == Ok::<
                    u64,
                    FailureView,
                >(number_of(text)->Some_0 as u64)
            },
        },
        ({
            let file = query_value(query, "file="@);
            let line = query_value(query, "line="@);
            &&& file is None || line is None ==> text_ask(query) == Err::<TextAsk, FailureView>(
                FailureView { status: Status::InternalServerError, msg: "Bad query string"@ },
            )
            &&& file is Some && (line matches Some(text) && (number_of(text) is None || number_of(
                text,
            )->Some_0 > usize::MAX)) ==> text_ask(query)
                == Err::<TextAsk, FailureView>(
                FailureView {
                    status: Status::InternalServerError,
                    msg: "Bad line number: "@ + line->Some_0,
                },
            )
            &&& file is Some && (line matches Some(text) && number_of(text) matches Some(n) && n
                <= usize::MAX) ==> text_ask(query) == Ok::<TextAsk, FailureView>(
                TextAsk {
                    file_name: file->Some_0,
                    line: number_of(line->Some_0)->Some_0 as usize,
                },
            )
        }),
{
}

/// The views of requests show what they hold, or why there is none.
pub proof fn law_request_views_show_everything(
    search: Result<SearchRequest, Failure>,
    id: Result<u64, Failure>,
    text: Result<TextRequest, Failure>,
)
    ensures
        match search {
            Ok(SearchRequest::Name(name)) => search_ask_view(search) == Ok::<SearchAsk, FailureView>(
                SearchAsk::Name(name@),
            ),
            Ok(SearchRequest::Id(n)) => search_ask_view(search) == Ok::<SearchAsk, FailureView>(
                SearchAsk::Id(n),
            ),
            Err(failure) => search_ask_view(search) == Err::<SearchAsk, FailureView>(failure@),
        },
        match id {
            Ok(n) => id_view(id) == Ok::<u64, FailureView>(n),
            Err(failure) => id_view(id) == Err::<u64, FailureView>(failure@),
        },
        match text {
            Ok(ask) => text_ask_view(text) == Ok::<TextAsk, FailureView>(
                TextAsk { file_name: ask.file_name@, line: ask.line },
            ),
            Err(failure) => text_ask_view(text) == Err::<TextAsk, FailureView>(failure@),
        },
{
}

} // verus!
