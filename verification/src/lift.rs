use vstd::prelude::*;
use vstd::string::StrSliceExecFns;
use vstd::utf8::{decode_utf8, encode_utf8, valid_utf8};
use crate::errors::BoundaryError;

verus! {

/// Relies on `String::from_utf8`: it returns `Ok` exactly when the bytes are
/// a valid UTF-8 encoding, and the returned string then consists of the
/// characters those bytes encode.
#[verifier::external_body]
fn string_from_utf8(bytes: Vec<u8>) -> (r: Option<String>)
    ensures
        r is Some <==> valid_utf8(bytes@),
        r matches Some(s) ==> s@ == decode_utf8(bytes@),
{
    String::from_utf8(bytes).ok()
}

/// Lifts raw bytes received across the boundary into a string. Invalid
/// UTF-8 is a hard failure, never a silent repair, so a host/guest protocol
/// bug surfaces immediately.
pub fn string_lift(bytes: Vec<u8>) -> (r: Result<String, BoundaryError>)
    ensures
        valid_utf8(bytes@) ==> (r matches Ok(s) && s@ == decode_utf8(bytes@)),
        !valid_utf8(bytes@) ==> r == Err::<String, BoundaryError>(BoundaryError::MalformedEncoding),
{
    match string_from_utf8(bytes) {
        Some(s) => Ok(s),
        None => Err(BoundaryError::MalformedEncoding),
    }
}

/// Lowers a string to the bytes that cross the boundary: its UTF-8
/// encoding, in one fresh allocation the receiver will own.
pub fn string_lower(s: &str) -> (out: Vec<u8>)
    ensures
        out@ == encode_utf8(s@),
{
    s.as_bytes_vec()
}

/// Lifts the one-byte wire form of a boolean. Any value other than 0 or 1
/// is a hard failure, as for strings.
pub fn bool_lift(val: u8) -> (r: Result<bool, BoundaryError>)
    ensures
        val == 0 ==> r == Ok::<bool, BoundaryError>(false),
        val == 1 ==> r == Ok::<bool, BoundaryError>(true),
        val > 1 ==> r == Err::<bool, BoundaryError>(BoundaryError::MalformedEncoding),
{
    if val == 0 {
        Ok(false)
    } else if val == 1 {
        Ok(true)
    } else {
        Err(BoundaryError::MalformedEncoding)
    }
}

} // verus!
