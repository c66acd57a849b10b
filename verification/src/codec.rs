//! Decoding a posted form into the message it carries.

use vstd::prelude::*;
use vstd::slice::slice_to_vec;
use vstd::string::*;
use vstd::utf8::*;
use crate::form::{find_last, last_value, pairs_of, parse_pairs};
use crate::models::{NewMessage, NewMessageView};

verus! {

/// Why a posted form holds no message.
#[derive(Debug, Clone, Copy, PartialEq, Eq)]
pub enum DecodeError {
    /// The form has no `message` field, or an empty one.
    MissingMessage,
    /// A field that is read is not UTF-8 text.
    InvalidText,
}

impl DecodeError {
    pub open spec fn text(self) -> Seq<char> {
        match self {
            DecodeError::MissingMessage => "missing field message"@,
            DecodeError::InvalidText => "field is not valid text"@,
        }
    }

    /// The error in words.
    pub fn describe(&self) -> (r: String)
        ensures
            r@ == self.text(),
    {
        match self {
            DecodeError::MissingMessage => "missing field message".to_owned(),
            DecodeError::InvalidText => "field is not valid text".to_owned(),
        }
    }
}

/// The name that a post without a `username` field is stored under.
pub open spec fn default_username() -> Seq<char> {
    "anonymous"@
}

/// What a posted form decodes to. The form must give `message` a value that
/// is not empty; `username` may be left out. Where a field is written more
/// than once, its last value counts.
pub open spec fn decode_spec(body: Seq<u8>) -> Result<NewMessageView, DecodeError> {
    let pairs = pairs_of(body);
    match last_value(pairs, "message".spec_bytes()) {
        None => Err(DecodeError::MissingMessage),
        Some(message) => if message.len() == 0 {
            Err(DecodeError::MissingMessage)
        } else if !valid_utf8(message) {
            Err(DecodeError::InvalidText)
        } else {
            match last_value(pairs, "username".spec_bytes()) {
                None => Ok(
                    NewMessageView { username: default_username(), message: decode_utf8(message) },
                ),
                Some(username) => if !valid_utf8(username) {
                    Err(DecodeError::InvalidText)
                } else {
                    Ok(
                        NewMessageView {
                            username: decode_utf8(username),
                            message: decode_utf8(message),
                        },
                    )
                },
            }
        },
    }
}

pub open spec fn decoded_view(r: Result<NewMessage, DecodeError>) -> Result<
    NewMessageView,
    DecodeError,
> {
    match r {
        Ok(m) => Ok(m@),
        Err(e) => Err(e),
    }
}

/// `String::from_utf8` of std: the text that `bytes` encode, exactly when
/// they are well-formed UTF-8.
#[verifier::external_body]
fn text_from_utf8(bytes: Vec<u8>) -> (r: Option<String>)
    ensures
        r is Some <==> valid_utf8(bytes@),
        r matches Some(s) ==> s@ == decode_utf8(bytes@),
{
    String::from_utf8(bytes).ok()
}

/// Decodes the body of a post.
pub fn decode(raw_body: &[u8]) -> (r: Result<NewMessage, DecodeError>)
    ensures
        decoded_view(r) == decode_spec(raw_body@),
{
    let pairs = parse_pairs(raw_body);
    let message = match find_last(&pairs, "message".as_bytes()) {
        None => {
            return Err(DecodeError::MissingMessage);
        },
        Some(bytes) => {
            if bytes.len() == 0 {
                return Err(DecodeError::MissingMessage);
            }
            match text_from_utf8(slice_to_vec(bytes.as_slice())) {
                None => {
                    return Err(DecodeError::InvalidText);
                },
                Some(text) => text,
            }
        },
    };
    let username = match find_last(&pairs, "username".as_bytes()) {
        None => "anonymous".to_owned(),
        Some(bytes) => match text_from_utf8(slice_to_vec(bytes.as_slice())) {
            None => {
                return Err(DecodeError::InvalidText);
            },
            Some(text) => text,
        },
    };
    Ok(NewMessage { username, message })
}

} // verus!
