//! What holds of the board as a whole: how posts, listings and refusals
//! relate to the rows of the store.

use vstd::prelude::*;
use vstd::string::*;
use vstd::utf8::*;
use crate::codec::{decode_spec, default_username, DecodeError};
use crate::decimal::{decimal, lemma_decimal_bytes, lemma_decimal_round_trip};
use crate::filter::{malformed, parse_spec, ParseError, TimeRange};
use crate::form::{
    field, last_value, lemma_pair_of_joined, lemma_pairs_of_joined, lemma_pairs_of_segment,
    lemma_unescape_plain, pairs_of, PairView, AMPERSAND, EQUALS,
};
use crate::json::{ack_json, list_json};
use crate::models::{MessageView, NewMessageView};
use crate::response::{
    decode_error_reply, json_reply, not_found_reply, parse_error_reply, BAD_REQUEST, NOT_FOUND,
    OK,
};
use crate::router::{
    first_step, is_root, reply_to, route_of, rows_after, Method, Route, StepView,
};
use crate::store::{select, stamped, valid_rows};

verus! {

/// A listing holds exactly the rows of the store whose timestamp the range
/// admits.
pub proof fn law_select_members(rows: Seq<MessageView>, range: TimeRange, m: MessageView)
    ensures
        select(rows, range).contains(m) <==> rows.contains(m) && range.admits(m.timestamp),
{
    let pred = |m: MessageView| range.admits(m.timestamp);
    let kept = rows.filter(pred);
    if kept.contains(m) {
        rows.lemma_filter_contains_rev(pred, m);
        let i = choose|i: int| 0 <= i < kept.len() && kept[i] == m;
        rows.lemma_filter_pred(pred, i);
    }
    if rows.contains(m) && range.admits(m.timestamp) {
        let i = choose|i: int| 0 <= i < rows.len() && rows[i] == m;
        rows.lemma_filter_contains(pred, i);
    }
}

/// A listing keeps the order of the store: what it holds after one more row
/// is what it held before, and then that row if the range admits it.
pub proof fn law_select_keeps_order(rows: Seq<MessageView>, range: TimeRange, m: MessageView)
    ensures
        select(rows.push(m), range) == if range.admits(m.timestamp) {
            select(rows, range).push(m)
        } else {
            select(rows, range)
        },
{
    rows.lemma_filter_push(m, |m: MessageView| range.admits(m.timestamp));
}

/// Without bounds, a listing holds every row.
pub proof fn law_select_unrestricted(rows: Seq<MessageView>)
    ensures
        select(rows, TimeRange::unrestricted()) == rows,
    decreases rows.len(),
{
    reveal(Seq::filter);
    if rows.len() > 0 {
        law_select_unrestricted(rows.drop_last());
        assert(rows.drop_last().push(rows.last()) =~= rows);
    }
}

/// With both bounds, a listing holds what is common to the listing with
/// the upper bound alone and the listing with the lower bound alone: it is
/// the one restricted by the other.
pub proof fn law_select_both_bounds(rows: Seq<MessageView>, before: i64, after: i64)
    ensures
        select(rows, TimeRange { before: Some(before), after: Some(after) }) == select(
            select(rows, TimeRange { before: Some(before), after: None }),
            TimeRange { before: None, after: Some(after) },
        ),
        select(rows, TimeRange { before: Some(before), after: Some(after) }) == select(
            select(rows, TimeRange { before: None, after: Some(after) }),
            TimeRange { before: Some(before), after: None },
        ),
    decreases rows.len(),
{
    let both = TimeRange { before: Some(before), after: Some(after) };
    let upper = TimeRange { before: Some(before), after: None };
    let lower = TimeRange { before: None, after: Some(after) };
    if rows.len() == 0 {
        reveal(Seq::filter);
    } else {
        let init = rows.drop_last();
        let m = rows.last();
        assert(init.push(m) =~= rows);
        law_select_both_bounds(init, before, after);
        law_select_keeps_order(init, both, m);
        law_select_keeps_order(init, upper, m);
        law_select_keeps_order(init, lower, m);
        law_select_keeps_order(select(init, upper), lower, m);
        law_select_keeps_order(select(init, lower), upper, m);
    }
}

/// Whatever is asked, the rows that the store held stay as they were, at
/// their places, and the rows are again as a store holds them.
pub proof fn law_rows_are_kept(
    rows: Seq<MessageView>,
    limit: nat,
    method: Method,
    path: Seq<char>,
    query: Option<Seq<u8>>,
    body: Seq<u8>,
    now: i64,
)
    requires
        valid_rows(rows, limit),
    ensures
        ({
            let after = rows_after(rows, limit, first_step(method, path, query, body), now as int);
            &&& valid_rows(after, limit)
            &&& rows.len() <= after.len() <= rows.len() + 1
            &&& after.take(rows.len() as int) == rows
        }),
{
    let after = rows_after(rows, limit, first_step(method, path, query, body), now as int);
    assert(after.take(rows.len() as int) =~= rows);
}

/// Identifiers tell the rows of a store apart and grow in the order of
/// insertion.
pub proof fn law_identifiers_grow(rows: Seq<MessageView>, limit: nat, i: int, j: int)
    requires
        valid_rows(rows, limit),
        0 <= i < j < rows.len(),
    ensures
        rows[i].id < rows[j].id,
{
}

/// A form is accepted exactly when it gives `message` a value that is not
/// empty and is text, and `username`, where it gives one, is text too. It is
/// refused for want of a message exactly when `message` has no value or an
/// empty one.
pub proof fn law_decode_accepts(body: Seq<u8>)
    ensures
        decode_spec(body) is Ok <==> {
            &&& field(body, "message".spec_bytes()) matches Some(message)
            &&& message.len() > 0
            &&& valid_utf8(message)
            &&& field(body, "username".spec_bytes()) matches Some(username) ==> valid_utf8(
                username,
            )
        },
        decode_spec(body) == Err::<NewMessageView, DecodeError>(DecodeError::MissingMessage) <==> {
            ||| field(body, "message".spec_bytes()) is None
            ||| field(body, "message".spec_bytes()) == Some(Seq::<u8>::empty())
        },
{
    match field(body, "message".spec_bytes()) {
        Some(message) => {
            if message.len() == 0 {
                assert(message =~= Seq::<u8>::empty());
            }
        },
        None => {},
    }
}

/// A post that carries a message, served by a store with room, is answered
/// with 200 and the timestamp that the message was stamped with; the
/// message is the last row from then on, and every later listing whose
/// range admits that timestamp holds it.
pub proof fn law_post_then_list(
    rows: Seq<MessageView>,
    limit: nat,
    path: Seq<char>,
    body: Seq<u8>,
    now: i64,
    post_query: Option<Seq<u8>>,
    list_query: Option<Seq<u8>>,
    list_body: Seq<u8>,
    later: i64,
)
    requires
        valid_rows(rows, limit),
        rows.len() < limit,
        is_root(path),
        decode_spec(body) is Ok,
        parse_spec(list_query) matches Ok(range) && range.admits(now as int),
    ensures
        ({
            let post = first_step(Method::Post, path, post_query, body);
            let list = first_step(Method::Get, path, list_query, list_body);
            let after = rows_after(rows, limit, post, now as int);
            &&& decode_spec(body) matches Ok(record)
            &&& parse_spec(list_query) matches Ok(range)
            &&& reply_to(rows, limit, post, now) == json_reply(ack_json(now as int))
            &&& reply_to(rows, limit, post, now).status == OK
            &&& after == rows.push(stamped(rows, record, now as int))
            &&& reply_to(after, limit, list, later) == json_reply(list_json(select(after, range)))
            &&& select(after, range).contains(stamped(rows, record, now as int))
        }),
{
    let record = decode_spec(body)->Ok_0;
    let range = parse_spec(list_query)->Ok_0;
    let posted = stamped(rows, record, now as int);
    let after = rows.push(posted);
    assert(after[rows.len() as int] == posted);
    law_select_members(after, range, posted);
}

/// A post whose form gives `message` no value, or an empty one, is answered
/// with 400, and the store is not touched.
pub proof fn law_post_without_message(
    rows: Seq<MessageView>,
    limit: nat,
    path: Seq<char>,
    query: Option<Seq<u8>>,
    body: Seq<u8>,
    now: i64,
)
    requires
        is_root(path),
        field(body, "message".spec_bytes()) is None || field(body, "message".spec_bytes())
            == Some(Seq::<u8>::empty()),
    ensures
        ({
            let post = first_step(Method::Post, path, query, body);
            &&& post == StepView::Reply(decode_error_reply(DecodeError::MissingMessage))
            &&& reply_to(rows, limit, post, now).status == BAD_REQUEST
            &&& rows_after(rows, limit, post, now as int) == rows
        }),
{
}

/// A post whose form has no `username` field is stored under the name
/// `anonymous`.
pub proof fn law_post_without_username(
    rows: Seq<MessageView>,
    limit: nat,
    path: Seq<char>,
    query: Option<Seq<u8>>,
    body: Seq<u8>,
    now: i64,
)
    requires
        rows.len() < limit,
        is_root(path),
        decode_spec(body) is Ok,
        field(body, "username".spec_bytes()) is None,
    ensures
        ({
            let post = first_step(Method::Post, path, query, body);
            let after = rows_after(rows, limit, post, now as int);
            &&& after.len() == rows.len() + 1
            &&& after.last().username == default_username()
            &&& default_username() == "anonymous"@
        }),
{
}

/// A listing without a query string is answered with 200 and every row of
/// the store, in the order of insertion.
pub proof fn law_list_without_query(
    rows: Seq<MessageView>,
    limit: nat,
    path: Seq<char>,
    body: Seq<u8>,
    now: i64,
)
    requires
        is_root(path),
    ensures
        ({
            let list = first_step(Method::Get, path, None, body);
            &&& reply_to(rows, limit, list, now) == json_reply(list_json(rows))
            &&& reply_to(rows, limit, list, now).status == OK
            &&& rows_after(rows, limit, list, now as int) == rows
        }),
{
    law_select_unrestricted(rows);
}

/// A listing whose query string is accepted is answered with 200 and
/// exactly the rows whose timestamp the range admits: below `before`, above
/// `after`. Where the range admits no row, the answer is still 200, with an
/// empty array.
pub proof fn law_list_in_range(
    rows: Seq<MessageView>,
    limit: nat,
    path: Seq<char>,
    query: Option<Seq<u8>>,
    body: Seq<u8>,
    now: i64,
)
    requires
        is_root(path),
        parse_spec(query) is Ok,
    ensures
        ({
            let list = first_step(Method::Get, path, query, body);
            &&& parse_spec(query) matches Ok(range)
            &&& reply_to(rows, limit, list, now) == json_reply(list_json(select(rows, range)))
            &&& reply_to(rows, limit, list, now).status == OK
            &&& forall|m: MessageView| #[trigger]
                select(rows, range).contains(m) <==> rows.contains(m) && range.admits(m.timestamp)
            &&& (forall|i: int| 0 <= i < rows.len() ==> !range.admits((#[trigger] rows[i]).timestamp))
                ==> select(rows, range) == Seq::<MessageView>::empty()
        }),
{
    let range = parse_spec(query)->Ok_0;
    assert forall|m: MessageView| #[trigger]
        select(rows, range).contains(m) <==> rows.contains(m) && range.admits(m.timestamp) by {
        law_select_members(rows, range, m);
    }
    if forall|i: int| 0 <= i < rows.len() ==> !range.admits((#[trigger] rows[i]).timestamp) {
        let kept = select(rows, range);
        if kept.len() > 0 {
            law_select_members(rows, range, kept[0]);
            assert(kept.contains(kept[0]));
            let i = choose|i: int| 0 <= i < rows.len() && rows[i] == kept[0];
            assert(!range.admits(rows[i].timestamp));
        }
        assert(kept =~= Seq::<MessageView>::empty());
    }
}

/// A listing whose query string gives `before` or `after` a value that is
/// no integer is answered with 400; the store is neither asked nor touched.
pub proof fn law_list_with_malformed_bound(
    rows: Seq<MessageView>,
    limit: nat,
    path: Seq<char>,
    query: Seq<u8>,
    body: Seq<u8>,
    now: i64,
)
    requires
        is_root(path),
        malformed(field(query, "before".spec_bytes())) || malformed(
            field(query, "after".spec_bytes()),
        ),
    ensures
        ({
            let list = first_step(Method::Get, path, Some(query), body);
            &&& parse_spec(Some(query)) matches Err(error)
            &&& error == ParseError::InvalidBefore <==> malformed(
                field(query, "before".spec_bytes()),
            )
            &&& list == StepView::Reply(parse_error_reply(error))
            &&& reply_to(rows, limit, list, now).status == BAD_REQUEST
            &&& rows_after(rows, limit, list, now as int) == rows
        }),
{
}

/// A request for anything but `POST /` or `GET /` is answered with 404 and
/// an empty body, whatever the store holds, and the store is not touched.
pub proof fn law_unknown_route(
    rows: Seq<MessageView>,
    limit: nat,
    method: Method,
    path: Seq<char>,
    query: Option<Seq<u8>>,
    body: Seq<u8>,
    now: i64,
)
    requires
        !is_root(path) || (method != Method::Post && method != Method::Get),
    ensures
        ({
            let step = first_step(method, path, query, body);
            &&& route_of(method, path) == Route::NotFound
            &&& reply_to(rows, limit, step, now) == not_found_reply()
            &&& reply_to(rows, limit, step, now).status == NOT_FOUND
            &&& reply_to(rows, limit, step, now).body == Seq::<u8>::empty()
            &&& rows_after(rows, limit, step, now as int) == rows
        }),
{
}

/// A listing leaves the store as it was, so the same listing asked again,
/// with no post in between, is answered the same.
pub proof fn law_list_again(
    rows: Seq<MessageView>,
    limit: nat,
    path: Seq<char>,
    query: Option<Seq<u8>>,
    body: Seq<u8>,
    now: i64,
    later: i64,
)
    ensures
        ({
            let list = first_step(Method::Get, path, query, body);
            let after = rows_after(rows, limit, list, now as int);
            &&& after == rows
            &&& reply_to(after, limit, list, later) == reply_to(rows, limit, list, now)
        }),
{
}

/// The form that a key which stands for itself, `=` and an integer in
/// decimal make holds one pair: that key with that text.
proof fn lemma_bound_pair(key: Seq<u8>, bound: i64)
    requires
        key.len() > 0,
        forall|j: int|
            0 <= j < key.len() ==> 0x61 <= #[trigger] key[j] <= 0x7a,
    ensures
        pairs_of(key + seq![EQUALS] + decimal(bound as int)) == seq![
            PairView { name: key, value: decimal(bound as int) },
        ],
{
    let text = decimal(bound as int);
    let segment = key + seq![EQUALS] + text;
    lemma_decimal_bytes(bound as int);
    assert forall|j: int| 0 <= j < segment.len() implies segment[j] != AMPERSAND by {
        if j < key.len() {
            assert(segment[j] == key[j]);
        } else if j > key.len() {
            assert(segment[j] == text[j - key.len() - 1]);
        }
    }
    lemma_pairs_of_segment(segment);
    lemma_pair_of_joined(key, text);
    lemma_unescape_plain(key);
    lemma_unescape_plain(text);
}

/// What the two keys of a query string are, byte by byte.
proof fn lemma_bound_keys()
    ensures
        "before".spec_bytes() == seq![0x62u8, 0x65u8, 0x66u8, 0x6fu8, 0x72u8, 0x65u8],
        "after".spec_bytes() == seq![0x61u8, 0x66u8, 0x74u8, 0x65u8, 0x72u8],
        "before=".spec_bytes() == "before".spec_bytes() + seq![EQUALS],
        "after=".spec_bytes() == "after".spec_bytes() + seq![EQUALS],
        "&before=".spec_bytes() == seq![AMPERSAND] + "before=".spec_bytes(),
{
    reveal_strlit("before");
    reveal_strlit("after");
    reveal_strlit("before=");
    reveal_strlit("after=");
    reveal_strlit("&before=");
    is_ascii_spec_bytes("before");
    is_ascii_spec_bytes("after");
    is_ascii_spec_bytes("before=");
    is_ascii_spec_bytes("after=");
    is_ascii_spec_bytes("&before=");
    assert("before".spec_bytes() =~= seq![0x62u8, 0x65u8, 0x66u8, 0x6fu8, 0x72u8, 0x65u8]);
    assert("after".spec_bytes() =~= seq![0x61u8, 0x66u8, 0x74u8, 0x65u8, 0x72u8]);
    assert("before=".spec_bytes() =~= "before".spec_bytes() + seq![EQUALS]);
    assert("after=".spec_bytes() =~= "after".spec_bytes() + seq![EQUALS]);
    assert("&before=".spec_bytes() =~= seq![AMPERSAND] + "before=".spec_bytes());
}

/// The query string `before=T`, with `T` in decimal, asks for the range
/// below `T`.
pub proof fn law_query_before(bound: i64)
    ensures
        parse_spec(Some("before=".spec_bytes() + decimal(bound as int))) == Ok::<
            TimeRange,
            ParseError,
        >(TimeRange { before: Some(bound), after: None }),
{
    let key = "before".spec_bytes();
    let query = "before=".spec_bytes() + decimal(bound as int);
    lemma_bound_keys();
    assert(query =~= key + seq![EQUALS] + decimal(bound as int));
    lemma_bound_pair(key, bound);
    lemma_decimal_round_trip(bound);
    let pairs = pairs_of(query);
    assert(pairs.drop_last() =~= Seq::<PairView>::empty());
    assert(key.len() != "after".spec_bytes().len());
    assert(pairs.last().name == key);
    assert(last_value(pairs.drop_last(), "after".spec_bytes()) is None);
    assert(last_value(pairs, "after".spec_bytes()) is None);
}

/// The query string `after=T`, with `T` in decimal, asks for the range
/// above `T`.
pub proof fn law_query_after(bound: i64)
    ensures
        parse_spec(Some("after=".spec_bytes() + decimal(bound as int))) == Ok::<
            TimeRange,
            ParseError,
        >(TimeRange { before: None, after: Some(bound) }),
{
    let key = "after".spec_bytes();
    let query = "after=".spec_bytes() + decimal(bound as int);
    lemma_bound_keys();
    assert(query =~= key + seq![EQUALS] + decimal(bound as int));
    lemma_bound_pair(key, bound);
    lemma_decimal_round_trip(bound);
    let pairs = pairs_of(query);
    assert(pairs.drop_last() =~= Seq::<PairView>::empty());
    assert(key.len() != "before".spec_bytes().len());
    assert(pairs.last().name == key);
    assert(last_value(pairs.drop_last(), "before".spec_bytes()) is None);
    assert(last_value(pairs, "before".spec_bytes()) is None);
}

/// The query string `after=A&before=B`, with both in decimal, asks for the
/// range above `A` and below `B`.
pub proof fn law_query_between(after: i64, before: i64)
    ensures
        parse_spec(
            Some(
                "after=".spec_bytes() + decimal(after as int) + "&before=".spec_bytes() + decimal(
                    before as int,
                ),
            ),
        ) == Ok::<TimeRange, ParseError>(TimeRange { before: Some(before), after: Some(after) }),
{
    let lower = "after".spec_bytes() + seq![EQUALS] + decimal(after as int);
    let upper = "before".spec_bytes() + seq![EQUALS] + decimal(before as int);
    let query = "after=".spec_bytes() + decimal(after as int) + "&before=".spec_bytes() + decimal(
        before as int,
    );
    lemma_bound_keys();
    assert(query =~= lower + seq![AMPERSAND] + upper);
    lemma_pairs_of_joined(lower, upper);
    lemma_bound_pair("after".spec_bytes(), after);
    lemma_bound_pair("before".spec_bytes(), before);
    lemma_decimal_round_trip(after);
    lemma_decimal_round_trip(before);
    let pairs = pairs_of(query);
    let first = PairView { name: "after".spec_bytes(), value: decimal(after as int) };
    let second = PairView { name: "before".spec_bytes(), value: decimal(before as int) };
    assert(pairs =~= seq![first, second]);
    assert(pairs.drop_last() =~= seq![first]);
    assert(pairs.drop_last().drop_last() =~= Seq::<PairView>::empty());
    assert("after".spec_bytes().len() != "before".spec_bytes().len());
    assert(last_value(pairs, "before".spec_bytes()) == Some(decimal(before as int)));
    assert(last_value(pairs.drop_last(), "after".spec_bytes()) == Some(decimal(after as int)));
    assert(last_value(pairs, "after".spec_bytes()) == Some(decimal(after as int)));
}

} // verus!
