//! Bytes as Base64 text, for the interfaces that people read.

use base64ct::Encoding;
use vstd::prelude::*;

verus! {

/// The Base64 text of `data`, in the standard alphabet with padding.
pub uninterp spec fn base64_text(data: Seq<u8>) -> Seq<char>;

/// `base64ct::Base64::encode_string`: the result is the Base64 text of `data`. The
/// call panics on more than a quarter of `usize::MAX` bytes, which `requires` leaves
/// out.
#[verifier::external_body]
pub(crate) fn base64_encode(data: &[u8]) -> (r: String)
    requires
        data@.len() <= usize::MAX / 4,
    ensures
        r@ == base64_text(data@),
{
    base64ct::Base64::encode_string(data)
}

/// Bytes in their Base64 text.
#[derive(Clone, Debug, PartialEq, Eq)]
pub struct Base64(pub String);

impl Base64 {
    /// The Base64 text of `bytes`.
    pub fn from_bytes(bytes: &[u8]) -> (r: Base64)
        requires
            bytes@.len() <= usize::MAX / 4,
        ensures
            r.0@ == base64_text(bytes@),
    {
        Base64(base64_encode(bytes))
    }

    /// The Base64 text of `bytes`, where they are few enough to encode.
    pub fn try_from_bytes(bytes: &[u8]) -> (r: Option<Base64>)
        ensures
            r.is_some() == (bytes@.len() <= usize::MAX / 4),
            r matches Some(b) ==> b.0@ == base64_text(bytes@),
    {
        if bytes.len() <= usize::MAX / 4 {
            Some(Base64(base64_encode(bytes)))
        } else {
            None
        }
    }

    /// The text.
    pub fn encoded(&self) -> (r: &String)
        ensures
            r@ == self.0@,
    {
        &self.0
    }
}

} // verus!
