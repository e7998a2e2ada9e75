//! Base64, in which files travel through a tool call.

use vstd::prelude::*;

use base64::Engine;

verus! {

/// The Base64 text of some bytes, in the standard alphabet with padding.
pub uninterp spec fn base64_text(bytes: Seq<u8>) -> Seq<char>;

/// The bytes of a Base64 text in the standard alphabet with padding; `None`
/// where it is no such text.
pub uninterp spec fn base64_bytes(text: Seq<char>) -> Option<Seq<u8>>;

/// `base64::Engine::encode` of the standard engine. The text is named by
/// [`base64_text`]; decoding it gives the bytes back.
#[verifier::external_body]
pub(crate) fn encode_base64(bytes: &Vec<u8>) -> (res: String)
    ensures
        res@ == base64_text(bytes@),
        base64_bytes(res@) == Some(bytes@),
{
    base64::engine::general_purpose::STANDARD.encode(bytes)
}

/// `base64::Engine::decode` of the standard engine. The bytes are named by
/// [`base64_bytes`].
#[verifier::external_body]
pub(crate) fn decode_base64(text: &str) -> (res: Option<Vec<u8>>)
    ensures
        match res {
            Some(bytes) => base64_bytes(text@) == Some(bytes@),
            None => base64_bytes(text@) is None,
        },
{
    base64::engine::general_purpose::STANDARD.decode(text).ok()
}

} // verus!
