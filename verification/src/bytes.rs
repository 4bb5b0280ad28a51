//! The byte-string variant: an immutable owned byte buffer, used both
//! for UTF-8 text and for raw binary payloads, and for object keys.

use vstd::prelude::*;

use vstd::slice::slice_to_vec;
use vstd::string::StringSliceAdditionalSpecFns;
use vstd::utf8::valid_utf8;

use crate::model::DecodeError;
use crate::value::BencodeBytes;

verus! {

/// Relies on `str::from_utf8` of std: it returns `Ok` exactly when the
/// bytes are valid UTF-8, and the resulting string slice views the same
/// bytes.
#[verifier::external_body]
fn utf8_from(b: &[u8]) -> (r: Option<&str>)
    ensures
        match r {
            Some(s) => valid_utf8(b@) && s.spec_bytes() == b@,
            None => !valid_utf8(b@),
        },
{
    std::str::from_utf8(b).ok()
}

impl BencodeBytes {
    /// A byte string holding the given bytes.
    pub fn from_vec(value: Vec<u8>) -> (r: Self)
        ensures
            r@ == value@,
    {
        BencodeBytes { value }
    }

    /// A byte string holding the UTF-8 bytes of `s`.
    pub fn from_text(s: &str) -> (r: Self)
        ensures
            r@ == s.spec_bytes(),
    {
        BencodeBytes { value: slice_to_vec(s.as_bytes()) }
    }

    /// The number of bytes.
    pub fn len(&self) -> (r: usize)
        ensures
            r == self@.len(),
    {
        self.value.len()
    }

    /// The raw bytes; always succeeds.
    pub fn as_bytes(&self) -> (r: &[u8])
        ensures
            r@ == self@,
    {
        self.value.as_slice()
    }

    /// The bytes interpreted as UTF-8 text; fails with `InvalidUtf8` on
    /// an invalid sequence.
    pub fn as_str(&self) -> (r: Result<&str, DecodeError>)
        ensures
            match r {
                Ok(s) => valid_utf8(self@) && s.spec_bytes() == self@,
                Err(e) => e == DecodeError::InvalidUtf8 && !valid_utf8(self@),
            },
    {
        match utf8_from(self.value.as_slice()) {
            Some(s) => Ok(s),
            None => Err(DecodeError::InvalidUtf8),
        }
    }
}

} // verus!
