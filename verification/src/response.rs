//! The answers of the board: a status, a content type and a body for every
//! outcome of a request.

use vstd::prelude::*;
use vstd::slice::slice_to_vec;
use vstd::string::*;
use vstd::utf8::*;
use crate::codec::DecodeError;
use crate::filter::ParseError;
use crate::json::{ack_json, encode_insert_ack, encode_list, list_json};
use crate::models::{rows_view, Message, MessageView};
use crate::store::StoreError;

verus! {

pub const OK: u16 = 200;

pub const BAD_REQUEST: u16 = 400;

pub const NOT_FOUND: u16 = 404;

pub const INTERNAL_SERVER_ERROR: u16 = 500;

/// What the body of an answer holds.
#[derive(Debug, Clone, Copy, PartialEq, Eq)]
pub enum ContentType {
    /// A JSON document.
    Json,
    /// An error in plain words.
    Text,
    /// Nothing: the body is empty.
    Absent,
}

#[derive(Debug, PartialEq, Eq)]
pub struct Response {
    pub status: u16,
    pub content_type: ContentType,
    pub body: Vec<u8>,
}

pub ghost struct ResponseView {
    pub status: int,
    pub content_type: ContentType,
    pub body: Seq<u8>,
}

impl View for Response {
    type V = ResponseView;

    open spec fn view(&self) -> ResponseView {
        ResponseView {
            status: self.status as int,
            content_type: self.content_type,
            body: self.body@,
        }
    }
}

/// A success that carries a JSON document.
pub open spec fn json_reply(body: Seq<u8>) -> ResponseView {
    ResponseView { status: OK as int, content_type: ContentType::Json, body }
}

/// A failure that says why in words.
pub open spec fn error_reply(status: int, text: Seq<char>) -> ResponseView {
    ResponseView { status, content_type: ContentType::Text, body: encode_utf8(text) }
}

/// The answer to a request that no route takes.
pub open spec fn not_found_reply() -> ResponseView {
    ResponseView {
        status: NOT_FOUND as int,
        content_type: ContentType::Absent,
        body: Seq::empty(),
    }
}

/// The answer to a post whose form was refused.
pub open spec fn decode_error_reply(error: DecodeError) -> ResponseView {
    error_reply(BAD_REQUEST as int, error.text())
}

/// The answer to a listing whose query string was refused.
pub open spec fn parse_error_reply(error: ParseError) -> ResponseView {
    error_reply(BAD_REQUEST as int, error.text())
}

/// The answer to a post once the store has been asked: the acknowledgement
/// with the timestamp, or the store's failure.
pub open spec fn insert_reply(result: Result<i64, StoreError>) -> ResponseView {
    match result {
        Ok(timestamp) => json_reply(ack_json(timestamp as int)),
        Err(error) => error_reply(INTERNAL_SERVER_ERROR as int, error.text()),
    }
}

/// The answer to a listing once the store has been asked: the rows as a
/// JSON array, which may be empty, or the store's failure.
pub open spec fn query_reply(result: Result<Seq<MessageView>, StoreError>) -> ResponseView {
    match result {
        Ok(rows) => json_reply(list_json(rows)),
        Err(error) => error_reply(INTERNAL_SERVER_ERROR as int, error.text()),
    }
}

pub open spec fn listed_view(result: Result<Vec<Message>, StoreError>) -> Result<
    Seq<MessageView>,
    StoreError,
> {
    match result {
        Ok(rows) => Ok(rows_view(rows@)),
        Err(error) => Err(error),
    }
}

fn error_response(status: u16, text: String) -> (r: Response)
    ensures
        r@ == error_reply(status as int, text@),
{
    Response {
        status,
        content_type: ContentType::Text,
        body: slice_to_vec(text.as_str().as_bytes()),
    }
}

pub fn not_found() -> (r: Response)
    ensures
        r@ == not_found_reply(),
{
    Response { status: NOT_FOUND, content_type: ContentType::Absent, body: Vec::new() }
}

pub fn from_decode_error(error: DecodeError) -> (r: Response)
    ensures
        r@ == decode_error_reply(error),
{
    error_response(BAD_REQUEST, error.describe())
}

pub fn from_parse_error(error: ParseError) -> (r: Response)
    ensures
        r@ == parse_error_reply(error),
{
    error_response(BAD_REQUEST, error.describe())
}

pub fn from_store_error(error: StoreError) -> (r: Response)
    ensures
        r@ == error_reply(INTERNAL_SERVER_ERROR as int, error.text()),
{
    error_response(INTERNAL_SERVER_ERROR, error.describe())
}

pub fn from_insert_result(result: Result<i64, StoreError>) -> (r: Response)
    ensures
        r@ == insert_reply(result),
{
    match result {
        Ok(timestamp) => Response {
            status: OK,
            content_type: ContentType::Json,
            body: encode_insert_ack(timestamp),
        },
        Err(error) => from_store_error(error),
    }
}

pub fn from_query_result(result: Result<Vec<Message>, StoreError>) -> (r: Response)
    ensures
        r@ == query_reply(listed_view(result)),
{
    match result {
        Ok(rows) => Response {
            status: OK,
            content_type: ContentType::Json,
            body: encode_list(rows.as_slice()),
        },
        Err(error) => from_store_error(error),
    }
}

} // verus!
