//! Element-by-element decoding of typed array replies, for readers that
//! check each element as soon as it has been read, and the decoding of a
//! SCAN reply.

use crate::client::{is_text, text_of, value_text};
use crate::commands::{scan_cursor, scan_keys, view_scan_result, ScanCmd};
use crate::error::{redis_error, Error, SpecError};
use crate::parser::{view_result, SpecValue, Value};
use vstd::prelude::*;

verus! {

/// An element of a string array: its text, or the error `expected string`.
pub open spec fn string_element_of(v: SpecValue) -> Result<Seq<char>, SpecError> {
    if is_text(v) {
        Ok(text_of(v))
    } else {
        Err(SpecError::Redis("expected string"@))
    }
}

/// Decodes an element of a string array.
pub fn string_element(v: Value) -> (res: Result<String, Error>)
    ensures
        match res {
            Ok(s) => string_element_of(v@) == Ok::<Seq<char>, SpecError>(s@),
            Err(e) => string_element_of(v@) == Err::<Seq<char>, SpecError>(e@),
        },
{
    match value_text(&v) {
        Some(s) => Ok(s),
        None => Err(Error::Redis(redis_error("expected string"))),
    }
}

/// An element of a flag array: whether the integer is 1, or the error
/// `expected integer`.
pub open spec fn flag_element_of(v: SpecValue) -> Result<bool, SpecError> {
    match v {
        SpecValue::Int(i) => Ok(i == 1),
        _ => Err(SpecError::Redis("expected integer"@)),
    }
}

/// Decodes an element of a flag array.
pub fn flag_element(v: Value) -> (res: Result<bool, Error>)
    ensures
        match res {
            Ok(b) => flag_element_of(v@) == Ok::<bool, SpecError>(b),
            Err(e) => flag_element_of(v@) == Err::<bool, SpecError>(e@),
        },
{
    match v {
        Value::Int(i) => Ok(i == 1),
        _ => Err(Error::Redis(redis_error("expected integer"))),
    }
}

/// A pair of a map or sorted-set array: both texts, or the error
/// `expected string` when either is not a string.
pub open spec fn string_pair_of(k: SpecValue, v: SpecValue) -> Result<(Seq<char>, Seq<char>), SpecError> {
    if is_text(k) && is_text(v) {
        Ok((text_of(k), text_of(v)))
    } else {
        Err(SpecError::Redis("expected string"@))
    }
}

/// Decodes a pair read from a map or sorted-set array.
pub fn string_pair(k: Value, v: Value) -> (res: Result<(String, String), Error>)
    ensures
        match res {
            Ok(p) => string_pair_of(k@, v@) == Ok::<(Seq<char>, Seq<char>), SpecError>((p.0@, p.1@)),
            Err(e) => string_pair_of(k@, v@) == Err::<(Seq<char>, Seq<char>), SpecError>(e@),
        },
{
    let key = match value_text(&k) {
        Some(s) => s,
        None => return Err(Error::Redis(redis_error("expected string"))),
    };
    let val = match value_text(&v) {
        Some(s) => s,
        None => return Err(Error::Redis(redis_error("expected string"))),
    };
    Ok((key, val))
}

/// What a SCAN reply `[cursor, [key, ...]]` gives: the cursor (0 when it is
/// missing or no integer) and the string keys.
pub open spec fn scan_outcome(r: Result<SpecValue, SpecError>) -> Result<(i64, Seq<Seq<char>>), SpecError> {
    match r {
        Ok(SpecValue::Array(a)) => if a.len() >= 2 {
            Ok(
                (
                    match scan_cursor(a[0]) {
                        Some(c) => c,
                        None => 0,
                    },
                    scan_keys(a[1]),
                ),
            )
        } else {
            Err(SpecError::Redis("invalid scan reply"@))
        },
        Ok(_) => Err(SpecError::Redis("expected array"@)),
        Err(e) => Err(e),
    }
}

/// Decodes a SCAN reply.
pub fn scan_reply(r: Result<Value, Error>) -> (res: Result<(i64, Vec<String>), Error>)
    ensures
        view_scan_result(res) == scan_outcome(view_result(r)),
{
    match r {
        Ok(v) => {
            let mut cmd = ScanCmd::new(Vec::new());
            match cmd.parse(v) {
                Ok(()) => cmd.result(),
                Err(e) => Err(e),
            }
        },
        Err(e) => Err(e),
    }
}

} // verus!
