//! Routing: which of the board's two operations a request asks for, what
//! has to be done in the store for it, and the whole way of a request
//! through a store in memory.

use vstd::prelude::*;
use vstd::string::*;
use crate::codec::{decode, decode_spec};
use crate::filter::{parse, parse_spec, query_bytes, TimeRange};
use crate::models::{MessageView, NewMessage, NewMessageView};
use crate::response::{
    decode_error_reply, from_decode_error, from_insert_result, from_parse_error,
    from_query_result, insert_reply, not_found, not_found_reply, parse_error_reply, query_reply,
    Response, ResponseView,
};
use crate::store::{insert_outcome, rows_after_insert, select, MemoryStore};

verus! {

/// The method of a request.
#[derive(Debug, Clone, Copy, PartialEq, Eq)]
pub enum Method {
    Get,
    Head,
    Post,
    Put,
    Delete,
    Connect,
    Options,
    Trace,
    Patch,
    Extension,
}

/// What a request asks for.
#[derive(Debug, Clone, Copy, PartialEq, Eq)]
pub enum Route {
    /// Post a message.
    Create,
    /// List messages.
    List,
    /// Nothing that the board offers.
    NotFound,
}

/// What is to be done next for a request: one operation of the store, or
/// the answer at once.
#[derive(Debug, PartialEq, Eq)]
pub enum Step {
    Insert(NewMessage),
    Query(TimeRange),
    Reply(Response),
}

pub ghost enum StepView {
    Insert(NewMessageView),
    Query(TimeRange),
    Reply(ResponseView),
}

impl View for Step {
    type V = StepView;

    open spec fn view(&self) -> StepView {
        match self {
            Step::Insert(record) => StepView::Insert(record@),
            Step::Query(range) => StepView::Query(*range),
            Step::Reply(response) => StepView::Reply(response@),
        }
    }
}

/// Whether `path` is the one path of the board, `/`.
pub open spec fn is_root(path: Seq<char>) -> bool {
    path.len() == 1 && path[0] == '/'
}

/// The route of a request: `POST /` posts, `GET /` lists, and nothing else
/// is offered.
pub open spec fn route_of(method: Method, path: Seq<char>) -> Route {
    if !is_root(path) {
        Route::NotFound
    } else if method == Method::Post {
        Route::Create
    } else if method == Method::Get {
        Route::List
    } else {
        Route::NotFound
    }
}

/// The step that a post with this body begins with: the insert of the
/// message that it carries, or the refusal of its form.
pub open spec fn create_step(body: Seq<u8>) -> StepView {
    match decode_spec(body) {
        Ok(record) => StepView::Insert(record),
        Err(error) => StepView::Reply(decode_error_reply(error)),
    }
}

/// The step that a listing with this query string begins with: the query
/// for the range that it asks for, or the refusal of the query string.
pub open spec fn list_step(query: Option<Seq<u8>>) -> StepView {
    match parse_spec(query) {
        Ok(range) => StepView::Query(range),
        Err(error) => StepView::Reply(parse_error_reply(error)),
    }
}

/// The step that a request begins with.
pub open spec fn first_step(
    method: Method,
    path: Seq<char>,
    query: Option<Seq<u8>>,
    body: Seq<u8>,
) -> StepView {
    match route_of(method, path) {
        Route::Create => create_step(body),
        Route::List => list_step(query),
        Route::NotFound => StepView::Reply(not_found_reply()),
    }
}

/// The rows of a store after it has served a step at the time `now`.
pub open spec fn rows_after(rows: Seq<MessageView>, limit: nat, step: StepView, now: int) -> Seq<
    MessageView,
> {
    match step {
        StepView::Insert(record) => rows_after_insert(rows, limit, record, now),
        StepView::Query(_) => rows,
        StepView::Reply(_) => rows,
    }
}

/// The answer of a store with these rows to a step at the time `now`.
pub open spec fn reply_to(rows: Seq<MessageView>, limit: nat, step: StepView, now: i64) -> ResponseView {
    match step {
        StepView::Insert(_) => insert_reply(insert_outcome(rows, limit, now)),
        StepView::Query(range) => query_reply(Ok(select(rows, range))),
        StepView::Reply(response) => response,
    }
}

pub fn classify(method: Method, path: &str) -> (r: Route)
    ensures
        r == route_of(method, path@),
{
    if path.unicode_len() != 1 || path.get_char(0) != '/' {
        return Route::NotFound;
    }
    match method {
        Method::Post => Route::Create,
        Method::Get => Route::List,
        _ => Route::NotFound,
    }
}

/// Begins a post: decodes its body.
pub fn begin_create(body: &[u8]) -> (r: Step)
    ensures
        r@ == create_step(body@),
{
    match decode(body) {
        Ok(record) => Step::Insert(record),
        Err(error) => Step::Reply(from_decode_error(error)),
    }
}

/// Begins a listing: reads the range from the query string.
pub fn begin_list(query_string: Option<&str>) -> (r: Step)
    ensures
        r@ == list_step(query_bytes(query_string)),
{
    match parse(query_string) {
        Ok(range) => Step::Query(range),
        Err(error) => Step::Reply(from_parse_error(error)),
    }
}

/// Begins a request.
pub fn begin(method: Method, path: &str, query_string: Option<&str>, body: &[u8]) -> (r: Step)
    ensures
        r@ == first_step(method, path@, query_bytes(query_string), body@),
{
    match classify(method, path) {
        Route::Create => begin_create(body),
        Route::List => begin_list(query_string),
        Route::NotFound => Step::Reply(not_found()),
    }
}

/// Serves one request from a store in memory, at the time `now`: at most
/// one operation of the store, and one answer whatever happens.
pub fn handle(
    store: &mut MemoryStore,
    method: Method,
    path: &str,
    query_string: Option<&str>,
    body: &[u8],
    now: i64,
) -> (r: Response)
    requires
        old(store).wf(),
    ensures
        final(store).wf(),
        final(store).limit() == old(store).limit(),
        final(store)@ == rows_after(
            old(store)@,
            old(store).limit(),
            first_step(method, path@, query_bytes(query_string), body@),
            now as int,
        ),
        r@ == reply_to(
            old(store)@,
            old(store).limit(),
            first_step(method, path@, query_bytes(query_string), body@),
            now,
        ),
{
    match begin(method, path, query_string, body) {
        Step::Insert(record) => {
            let outcome = store.insert(record, now);
            from_insert_result(outcome)
        },
        Step::Query(range) => {
            let rows = store.query(range);
            from_query_result(Ok(rows))
        },
        Step::Reply(response) => response,
    }
}

} // verus!
