//! Base64 payloads, from `data_encoding`.

use vstd::prelude::*;

verus! {

/// The bytes that the standard padded base64 text `text` decodes to, or
/// `None` when it is not valid base64.
pub uninterp spec fn base64_decoded(text: Seq<u8>) -> Option<Seq<u8>>;

/// Relies on data_encoding::BASE64.decode: the decoded bytes of valid
/// standard padded base64, an error otherwise.
#[verifier::external_body]
pub(crate) fn decode_base64(text: &[u8]) -> (r: Option<Vec<u8>>)
    ensures
        match r {
            Some(v) => base64_decoded(text@) == Some(v@),
            None => base64_decoded(text@) is None,
        },
{
    data_encoding::BASE64.decode(text).ok()
}

} // verus!
