//! Conversion between raw header bytes and owned strings.

use vstd::prelude::*;

verus! {

use vstd::utf8::{encode_utf8, valid_utf8};

/// Relies on `String::from_utf8`: it returns the string whose UTF-8
/// encoding is exactly the given bytes, and fails exactly when the bytes
/// are not valid UTF-8.
#[verifier::external_body]
pub fn bytes_to_string(v: &[u8]) -> (r: Option<String>)
    ensures
        r is Some <==> valid_utf8(v@),
        r matches Some(s) ==> encode_utf8(s@) == v@,
{
    match String::from_utf8(v.to_vec()) {
        Ok(s) => Some(s),
        Err(_) => None,
    }
}

} // verus!
