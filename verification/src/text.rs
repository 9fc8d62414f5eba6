//! Reading bytes as UTF-8 text.

use vstd::prelude::*;
use vstd::utf8::{decode_utf8, encode_utf8, valid_utf8, encode_utf8_decode_utf8};
use crate::error::Error;

verus! {

/// The error of `core::str::from_utf8`, carried through and never inspected.
#[verifier::external_type_specification]
#[verifier::external_body]
pub struct ExUtf8Error(core::str::Utf8Error);

/// `core::str::from_utf8` succeeds exactly on the byte slices that are valid
/// UTF-8, and the string slice it then returns is made of the very bytes it
/// was given.
pub assume_specification[ core::str::from_utf8 ](v: &[u8]) -> (r: Result<
    &str,
    core::str::Utf8Error,
>)
    ensures
        r is Ok <==> valid_utf8(v@),
        r matches Ok(s) ==> encode_utf8(s@) == v@,
;

/// Reads `bytes` as UTF-8 text.
///
/// Succeeds exactly when `bytes` is valid UTF-8, with the characters that
/// `bytes` encodes; fails with `InvalidEncoding` otherwise.
pub fn utf8_text(bytes: &[u8]) -> (r: Result<String, Error>)
    ensures
        match r {
            Ok(s) => valid_utf8(bytes@) && s@ == decode_utf8(bytes@),
            Err(e) => !valid_utf8(bytes@) && e == Error::InvalidEncoding,
        },
{
    match core::str::from_utf8(bytes) {
        Ok(s) => {
            proof {
                encode_utf8_decode_utf8(s@);
            }
            Ok(s.to_owned())
        },
        Err(_) => Err(Error::InvalidEncoding),
    }
}

} // verus!
