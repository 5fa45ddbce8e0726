//! Decoding byte strings as text.
//!
//! The schema decodes a few byte strings — the announce endpoint, the
//! suggested name, path segments — as UTF-8 text. The conversion itself is
//! done by the standard library; its contract is stated over the UTF-8
//! model of `vstd`.

use vstd::prelude::*;

verus! {

/// Relies on `String::from_utf8`: it returns the string whose character
/// sequence is the UTF-8 decoding of `b` exactly when `b` is valid UTF-8,
/// and refuses `b` otherwise.
#[verifier::external_body]
pub(crate) fn bytes_to_text(b: &Vec<u8>) -> (r: Option<String>)
    ensures
        match r {
            Some(s) => vstd::utf8::valid_utf8(b@) && s@ == vstd::utf8::decode_utf8(b@),
            None => !vstd::utf8::valid_utf8(b@),
        },
{
    match String::from_utf8(b.clone()) {
        Ok(s) => Some(s),
        Err(_) => None,
    }
}

} // verus!
