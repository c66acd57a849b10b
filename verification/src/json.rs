//! The JSON that the board answers with, written compactly: a list of
//! stored messages, and the acknowledgement of a post.

use vstd::prelude::*;
use vstd::string::*;
use vstd::utf8::*;
use crate::decimal::{decimal, push_decimal};
use crate::models::{rows_view, Message, MessageView};

verus! {

pub const QUOTE: u8 = 0x22;

pub const BACKSLASH: u8 = 0x5c;

pub open spec fn hex_digit_of(n: int) -> u8 {
    if n < 10 {
        (0x30 + n) as u8
    } else {
        (0x61 + n - 10) as u8
    }
}

/// How one byte of a string is written between the quotes: a backslash
/// before a quote or a backslash, the short escapes for backspace, tab, line
/// feed, form feed and carriage return, `\u00XX` for every other control
/// byte, and any other byte as it is.
pub open spec fn escape_byte(b: u8) -> Seq<u8> {
    if b == QUOTE {
        seq![BACKSLASH, QUOTE]
    } else if b == BACKSLASH {
        seq![BACKSLASH, BACKSLASH]
    } else if b == 0x08 {
        seq![BACKSLASH, 0x62u8]
    } else if b == 0x09 {
        seq![BACKSLASH, 0x74u8]
    } else if b == 0x0a {
        seq![BACKSLASH, 0x6eu8]
    } else if b == 0x0c {
        seq![BACKSLASH, 0x66u8]
    } else if b == 0x0d {
        seq![BACKSLASH, 0x72u8]
    } else if b < 0x20 {
        seq![BACKSLASH, 0x75u8, 0x30u8, 0x30u8, hex_digit_of(b as int / 16), hex_digit_of(b as int % 16)]
    } else {
        seq![b]
    }
}

pub open spec fn escape(s: Seq<u8>) -> Seq<u8>
    decreases s.len(),
{
    if s.len() == 0 {
        Seq::empty()
    } else {
        escape(s.drop_last()) + escape_byte(s.last())
    }
}

/// A text as a JSON string: its UTF-8 bytes, escaped, between quotes.
pub open spec fn json_string(text: Seq<char>) -> Seq<u8> {
    seq![QUOTE] + escape(encode_utf8(text)) + seq![QUOTE]
}

/// A stored message as a JSON object with the members `id`, `username`,
/// `message` and `timestamp`, in this order.
pub open spec fn message_json(m: MessageView) -> Seq<u8> {
    "{\"id\":".spec_bytes() + decimal(m.id) + ",\"username\":".spec_bytes() + json_string(
        m.username,
    ) + ",\"message\":".spec_bytes() + json_string(m.message) + ",\"timestamp\":".spec_bytes()
        + decimal(m.timestamp) + "}".spec_bytes()
}

/// The objects of `rows`, in their order, with a comma between neighbours.
pub open spec fn messages_json(rows: Seq<MessageView>) -> Seq<u8>
    decreases rows.len(),
{
    if rows.len() == 0 {
        Seq::empty()
    } else if rows.len() == 1 {
        message_json(rows[0])
    } else {
        messages_json(rows.drop_last()) + ",".spec_bytes() + message_json(rows.last())
    }
}

/// A list of stored messages as a JSON array.
pub open spec fn list_json(rows: Seq<MessageView>) -> Seq<u8> {
    "[".spec_bytes() + messages_json(rows) + "]".spec_bytes()
}

/// The acknowledgement of a post: an object whose one member, `timestamp`,
/// is the timestamp that the store gave.
pub open spec fn ack_json(timestamp: int) -> Seq<u8> {
    "{\"timestamp\":".spec_bytes() + decimal(timestamp) + "}".spec_bytes()
}

fn push_text(out: &mut Vec<u8>, text: &str)
    ensures
        final(out)@ == old(out)@ + text.spec_bytes(),
{
    out.extend_from_slice(text.as_bytes());
}

fn hex_digit(n: u8) -> (r: u8)
    requires
        n < 16,
    ensures
        r == hex_digit_of(n as int),
{
    if n < 10 {
        0x30 + n
    } else {
        0x61 + (n - 10)
    }
}

fn push_escaped_byte(out: &mut Vec<u8>, b: u8)
    ensures
        final(out)@ == old(out)@ + escape_byte(b),
{
    let ghost before = out@;
    if b == QUOTE || b == BACKSLASH {
        out.push(BACKSLASH);
        out.push(b);
    } else if b == 0x08 {
        out.push(BACKSLASH);
        out.push(0x62);
    } else if b == 0x09 {
        out.push(BACKSLASH);
        out.push(0x74);
    } else if b == 0x0a {
        out.push(BACKSLASH);
        out.push(0x6e);
    } else if b == 0x0c {
        out.push(BACKSLASH);
        out.push(0x66);
    } else if b == 0x0d {
        out.push(BACKSLASH);
        out.push(0x72);
    } else if b < 0x20 {
        out.push(BACKSLASH);
        out.push(0x75);
        out.push(0x30);
        out.push(0x30);
        out.push(hex_digit(b / 16));
        out.push(hex_digit(b % 16));
    } else {
        out.push(b);
    }
    assert(out@ =~= before + escape_byte(b));
}

/// Appends `text` as a JSON string.
pub fn push_string(out: &mut Vec<u8>, text: &str)
    ensures
        final(out)@ == old(out)@ + json_string(text@),
{
    let ghost before = out@;
    let bytes = text.as_bytes();
    out.push(QUOTE);
    let mut i: usize = 0;
    while i < bytes.len()
        invariant
            i <= bytes.len(),
            out@ == before + seq![QUOTE] + escape(bytes@.take(i as int)),
        decreases bytes.len() - i,
    {
        let ghost upto = bytes@.take(i + 1);
        assert(upto.drop_last() =~= bytes@.take(i as int));
        assert(upto.last() == bytes@[i as int]);
        push_escaped_byte(out, bytes[i]);
        assert(out@ =~= before + seq![QUOTE] + escape(upto));
        i = i + 1;
    }
    assert(bytes@.take(i as int) =~= bytes@);
    out.push(QUOTE);
    assert(out@ =~= before + json_string(text@));
}

/// Appends one stored message as a JSON object.
pub fn push_message(out: &mut Vec<u8>, m: &Message)
    ensures
        final(out)@ == old(out)@ + message_json(m@),
{
    let ghost before = out@;
    push_text(out, "{\"id\":");
    push_decimal(out, m.id as i64);
    push_text(out, ",\"username\":");
    push_string(out, m.username.as_str());
    push_text(out, ",\"message\":");
    push_string(out, m.message.as_str());
    push_text(out, ",\"timestamp\":");
    push_decimal(out, m.timestamp);
    push_text(out, "}");
    assert(out@ =~= before + message_json(m@));
}

/// Writes the messages as a JSON array, in the order given.
pub fn encode_list(messages: &[Message]) -> (r: Vec<u8>)
    ensures
        r@ == list_json(rows_view(messages@)),
{
    let ghost rows = rows_view(messages@);
    let mut out: Vec<u8> = Vec::new();
    push_text(&mut out, "[");
    let mut i: usize = 0;
    assert(out@ =~= "[".spec_bytes() + messages_json(rows.take(0)));
    while i < messages.len()
        invariant
            i <= messages.len(),
            rows == rows_view(messages@),
            out@ == "[".spec_bytes() + messages_json(rows.take(i as int)),
        decreases messages.len() - i,
    {
        let ghost upto = rows.take(i + 1);
        assert(upto.drop_last() =~= rows.take(i as int));
        assert(upto.last() == messages@[i as int]@);
        if i > 0 {
            push_text(&mut out, ",");
        }
        push_message(&mut out, &messages[i]);
        assert(out@ =~= "[".spec_bytes() + messages_json(upto));
        i = i + 1;
    }
    assert(rows.take(i as int) =~= rows);
    push_text(&mut out, "]");
    out
}

/// Writes the acknowledgement of a post.
pub fn encode_insert_ack(timestamp: i64) -> (r: Vec<u8>)
    ensures
        r@ == ack_json(timestamp as int),
{
    let mut out: Vec<u8> = Vec::new();
    push_text(&mut out, "{\"timestamp\":");
    push_decimal(&mut out, timestamp);
    push_text(&mut out, "}");
    assert(out@ =~= ack_json(timestamp as int));
    out
}

} // verus!
