//! UTF-8 text: strings written as their UTF-8 bytes and read back from them.
use vstd::prelude::*;
use vstd::utf8::{decode_utf8, encode_utf8, valid_utf8};

verus! {

/// `String::from_utf8` (std): a string made of `bytes` when they are valid
/// UTF-8, its characters those the bytes encode; `None` otherwise. The claim
/// rests on the documentation of `String::from_utf8`.
#[verifier::external_body]
pub(crate) fn string_from_utf8(bytes: Vec<u8>) -> (r: Option<String>)
    ensures
        r is Some <==> valid_utf8(bytes@),
        r matches Some(s) ==> s@ == decode_utf8(bytes@),
{
    String::from_utf8(bytes).ok()
}

/// The UTF-8 bytes of a string.
pub fn string_bytes(s: &String) -> (r: &[u8])
    ensures
        r@ == encode_utf8(s@),
{
    s.as_str().as_bytes()
}

/// A string read from bytes: `Some` exactly when they are valid UTF-8, and
/// then its bytes are those bytes.
pub fn string_from_bytes(bytes: &[u8]) -> (r: Option<String>)
    ensures
        r is Some <==> valid_utf8(bytes@),
        r matches Some(s) ==> s@ == decode_utf8(bytes@) && encode_utf8(s@) == bytes@,
{
    let v = vstd::slice::slice_to_vec(bytes);
    let r = string_from_utf8(v);
    proof {
        if valid_utf8(bytes@) {
            vstd::utf8::decode_utf8_encode_utf8(bytes@);
        }
    }
    r
}

} // verus!
