//! Decoding of byte runs into text.

use vstd::prelude::*;
use vstd::utf8::{decode_utf8, valid_utf8};

verus! {

#[verifier::external_type_specification]
#[verifier::external_body]
pub struct ExUtf8Error(core::str::Utf8Error);

/// Relies on `std::str::from_utf8`: it accepts exactly the well-formed UTF-8
/// sequences, and the text it returns is their decoding.
#[verifier::external_body]
fn decode(bytes: &[u8]) -> (r: Result<String, core::str::Utf8Error>)
    ensures
        r is Ok <==> valid_utf8(bytes@),
        r matches Ok(s) ==> s@ == decode_utf8(bytes@),
{
    core::str::from_utf8(bytes).map(|s| s.to_string())
}

/// A byte run that is not well-formed UTF-8.
#[derive(Debug, Clone, Copy, PartialEq, Eq)]
pub struct InvalidText;

/// Decodes `bytes` as UTF-8 text.
pub fn bytes_to_string(bytes: &[u8]) -> (r: Result<String, InvalidText>)
    ensures
        r is Ok <==> valid_utf8(bytes@),
        r matches Ok(s) ==> s@ == decode_utf8(bytes@),
{
    match decode(bytes) {
        Ok(s) => Ok(s),
        Err(_) => Err(InvalidText),
    }
}

/// Decoding of an owned byte buffer as UTF-8 text.
pub trait BytesToStringExt: Sized + View<V = Seq<u8>> {
    fn to_str(self) -> (r: Result<String, InvalidText>)
        ensures
            r is Ok <==> valid_utf8(self@),
            r matches Ok(s) ==> s@ == decode_utf8(self@),
    ;
}

impl BytesToStringExt for Vec<u8> {
    fn to_str(self) -> (r: Result<String, InvalidText>) {
        bytes_to_string(self.as_slice())
    }
}

} // verus!
