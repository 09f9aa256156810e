//! UTF-8 validation and the making of strings from bytes that were validated.
//!
//! Neither is done by this crate itself.  Validation is left to `simdutf8`,
//! and a `String` is made by the standard library.  What this crate relies on
//! is stated here, over the definition of well-formed UTF-8 in `vstd::utf8`;
//! none of it is proved.

use vstd::prelude::*;
use vstd::string::StringSliceAdditionalSpecFns;
use vstd::utf8::{encode_utf8, valid_utf8};

verus! {

/// The error of `simdutf8::basic::from_utf8`, a zero-sized marker.
#[verifier::external_type_specification]
#[verifier::external_body]
pub struct ExUtf8Error(simdutf8::basic::Utf8Error);

/// `simdutf8::basic::from_utf8` checks whether `input` is well-formed UTF-8.
///
/// Believed of it: it succeeds exactly on well-formed UTF-8, and the string
/// slice it then returns is a view of the very bytes it was given.
pub assume_specification[ simdutf8::basic::from_utf8 ](input: &[u8]) -> (result: Result<
    &str,
    simdutf8::basic::Utf8Error,
>)
    ensures
        result is Ok <==> valid_utf8(input@),
        result matches Ok(text) ==> text.spec_bytes() == input@,
;

/// The error of `String::from_utf8`, which hands the rejected bytes back.
#[verifier::external_type_specification]
#[verifier::external_body]
pub struct ExFromUtf8Error(std::string::FromUtf8Error);

/// `String::from_utf8` turns a vector of bytes into a string without copying.
///
/// Believed of it: it succeeds exactly on well-formed UTF-8, and the string
/// it then returns is made of the very bytes it was given.
pub assume_specification[ String::from_utf8 ](vec: Vec<u8>) -> (result: Result<
    String,
    std::string::FromUtf8Error,
>)
    ensures
        result is Ok <==> valid_utf8(vec@),
        result matches Ok(text) ==> encode_utf8(text@) == vec@,
;

} // verus!
