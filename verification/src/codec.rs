use vstd::prelude::*;
use vstd::utf8::{decode_utf8, valid_utf8};

use base64::Engine;

verus! {

/// The text that the base64 crate's `STANDARD` engine (RFC 4648 alphabet, with padding)
/// encodes the bytes to.
pub uninterp spec fn base64_standard_encoding(data: Seq<u8>) -> Seq<char>;

/// The bytes that the base64 crate's `STANDARD` engine decodes a text to, or none when
/// it rejects the text.
pub uninterp spec fn base64_standard_decoding(text: Seq<char>) -> Option<Seq<u8>>;

/// The length of the padded base64 text of `n` bytes: four characters for every three
/// bytes begun.
pub open spec fn base64_encoded_len(n: nat) -> nat {
    n / 3 * 4 + if n % 3 > 0 {
        4nat
    } else {
        0nat
    }
}

/// Calls `base64::engine::general_purpose::STANDARD.encode`. The contract claims only
/// that the result is the named encoding of the bytes; the crate panics when the encoded
/// length overflows `usize`, which `requires` rules out.
#[verifier::external_body]
pub(crate) fn base64_encode(data: &[u8]) -> (r: String)
    requires
        base64_encoded_len(data@.len()) <= usize::MAX,
    ensures
        r@ == base64_standard_encoding(data@),
{
    base64::engine::general_purpose::STANDARD.encode(data)
}

/// Calls `base64::engine::general_purpose::STANDARD.decode`, mapping its `DecodeError`
/// to none. The contract claims only that the result is the named decoding of the text.
#[verifier::external_body]
pub(crate) fn base64_decode(text: &str) -> (r: Option<Vec<u8>>)
    ensures
        r matches Some(v) ==> base64_standard_decoding(text@) == Some(v@),
        r is None ==> base64_standard_decoding(text@) is None,
{
    base64::engine::general_purpose::STANDARD.decode(text).ok()
}

/// Calls `String::from_utf8`, mapping its error to none. std documents that it fails
/// exactly when the bytes are not valid UTF-8; the contract claims that, and that the
/// string holds the characters the bytes encode.
#[verifier::external_body]
pub(crate) fn utf8_string(bytes: Vec<u8>) -> (r: Option<String>)
    ensures
        r matches Some(s) ==> valid_utf8(bytes@) && s@ == decode_utf8(bytes@),
        r is None ==> !valid_utf8(bytes@),
{
    String::from_utf8(bytes).ok()
}

} // verus!
