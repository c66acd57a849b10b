//! The window of timestamps that a listing is restricted to, and how it is
//! read from a query string.

use vstd::prelude::*;
use vstd::string::*;
use crate::decimal::{parse_i64, parse_i64_spec};
use crate::form::{find_last, last_value, pairs_of, parse_pairs};

verus! {

/// Two optional bounds on a timestamp, both exclusive.
#[derive(Debug, Clone, Copy, PartialEq, Eq)]
pub struct TimeRange {
    pub before: Option<i64>,
    pub after: Option<i64>,
}

impl TimeRange {
    /// The range without bounds.
    pub open spec fn unrestricted() -> TimeRange {
        TimeRange { before: None, after: None }
    }

    /// Whether `timestamp` lies in the range: strictly below `before` and
    /// strictly above `after`, as far as they are set.
    pub open spec fn admits(self, timestamp: int) -> bool {
        &&& self.before matches Some(b) ==> timestamp < b
        &&& self.after matches Some(a) ==> timestamp > a
    }

    pub fn all() -> (r: TimeRange)
        ensures
            r == TimeRange::unrestricted(),
    {
        TimeRange { before: None, after: None }
    }

    pub fn contains(&self, timestamp: i64) -> (r: bool)
        ensures
            r == self.admits(timestamp as int),
    {
        match (self.before, self.after) {
            (Some(before), Some(after)) => timestamp < before && timestamp > after,
            (Some(before), None) => timestamp < before,
            (None, Some(after)) => timestamp > after,
            (None, None) => true,
        }
    }
}

/// Which bound of a query string is no integer.
#[derive(Debug, Clone, Copy, PartialEq, Eq)]
pub enum ParseError {
    InvalidBefore,
    InvalidAfter,
}

impl ParseError {
    pub open spec fn text(self) -> Seq<char> {
        match self {
            ParseError::InvalidBefore => "invalid value for before"@,
            ParseError::InvalidAfter => "invalid value for after"@,
        }
    }

    /// The error in words.
    pub fn describe(&self) -> (r: String)
        ensures
            r@ == self.text(),
    {
        match self {
            ParseError::InvalidBefore => "invalid value for before".to_owned(),
            ParseError::InvalidAfter => "invalid value for after".to_owned(),
        }
    }
}

/// The bound that a query string's value for one key sets: none where the
/// key is absent, the integer where the value is one.
pub open spec fn bound_of(value: Option<Seq<u8>>) -> Option<i64> {
    match value {
        Some(text) => parse_i64_spec(text),
        None => None,
    }
}

/// Whether a key that is present has a value that is no `i64` in decimal.
pub open spec fn malformed(value: Option<Seq<u8>>) -> bool {
    value matches Some(text) && parse_i64_spec(text) is None
}

/// The range that a query string asks for. Only the keys `before` and
/// `after` are read; `before` is examined first. Without a query string,
/// the range has no bounds.
pub open spec fn parse_spec(query: Option<Seq<u8>>) -> Result<TimeRange, ParseError> {
    match query {
        None => Ok(TimeRange::unrestricted()),
        Some(q) => {
            let pairs = pairs_of(q);
            let before = last_value(pairs, "before".spec_bytes());
            let after = last_value(pairs, "after".spec_bytes());
            if malformed(before) {
                Err(ParseError::InvalidBefore)
            } else if malformed(after) {
                Err(ParseError::InvalidAfter)
            } else {
                Ok(TimeRange { before: bound_of(before), after: bound_of(after) })
            }
        },
    }
}

/// The bytes of an optional query string.
pub open spec fn query_bytes(query: Option<&str>) -> Option<Seq<u8>> {
    match query {
        Some(q) => Some(q.spec_bytes()),
        None => None,
    }
}

/// Reads the range that a query string asks for.
pub fn parse(query_string: Option<&str>) -> (r: Result<TimeRange, ParseError>)
    ensures
        r == parse_spec(query_bytes(query_string)),
{
    let q = match query_string {
        None => {
            return Ok(TimeRange::all());
        },
        Some(q) => q,
    };
    let pairs = parse_pairs(q.as_bytes());
    let before = match find_last(&pairs, "before".as_bytes()) {
        None => None,
        Some(text) => match parse_i64(text.as_slice()) {
            None => {
                return Err(ParseError::InvalidBefore);
            },
            Some(bound) => Some(bound),
        },
    };
    let after = match find_last(&pairs, "after".as_bytes()) {
        None => None,
        Some(text) => match parse_i64(text.as_slice()) {
            None => {
                return Err(ParseError::InvalidAfter);
            },
            Some(bound) => Some(bound),
        },
    };
    Ok(TimeRange { before, after })
}

} // verus!
