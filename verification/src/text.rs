//! The UTF-8 text codec: whole-file byte sequences to text and back.
//!
//! Reads hand their raw bytes here for decoding; a malformed encoding is a
//! classified read failure, never a crash. Writes hand their text here for
//! encoding. Encoding then decoding returns the original text exactly.

use vstd::prelude::*;
use vstd::string::StrSliceExecFns;
use vstd::utf8::decode_utf8;
use vstd::utf8::encode_utf8;
use vstd::utf8::encode_utf8_decode_utf8;
use vstd::utf8::encode_utf8_valid_utf8;
use vstd::utf8::valid_utf8;

use crate::errors::OpError;

verus! {

/// Relies on String::from_utf8: it succeeds exactly on valid UTF-8 input
/// and returns the string those bytes encode.
#[verifier::external_body]
fn utf8_to_string(bytes: Vec<u8>) -> (r: Option<String>)
    ensures
        r is Some <==> valid_utf8(bytes@),
        r is Some ==> r->0@ == decode_utf8(bytes@),
{
    match String::from_utf8(bytes) {
        Ok(s) => Some(s),
        Err(_) => None,
    }
}

/// Relies on str::chars: iterating a string yields exactly its characters,
/// in order.
#[verifier::external_body]
pub(crate) fn string_to_chars(s: &str) -> (r: Vec<char>)
    ensures
        r@ == s@,
{
    s.chars().collect()
}

/// Relies on String as FromIterator<char>: collecting characters yields the
/// string of exactly those characters, in order.
#[verifier::external_body]
pub(crate) fn chars_to_string(chars: &Vec<char>) -> (r: String)
    ensures
        r@ == chars@,
{
    chars.iter().collect()
}

/// Decode whole-file bytes as UTF-8 text.
///
/// Succeeds exactly when the bytes are valid UTF-8, returning the text they
/// encode; otherwise the failure is classified as a read error on `path`.
pub fn decode_text(path: &str, bytes: Vec<u8>) -> (r: Result<String, OpError>)
    ensures
        r is Ok <==> valid_utf8(bytes@),
        r is Ok ==> r->Ok_0@ == decode_utf8(bytes@),
        r is Err ==> r->Err_0.kind is Read && r->Err_0.path@ == path@,
{
    match utf8_to_string(bytes) {
        Some(s) => Ok(s),
        None => Err(OpError::read(path, "file content is not valid UTF-8")),
    }
}

/// Encode text as the whole-file byte sequence a write stores.
pub fn encode_text(text: &str) -> (r: Vec<u8>)
    ensures
        r@ == encode_utf8(text@),
{
    text.as_bytes_vec()
}

/// Encoding any text as UTF-8 yields valid UTF-8, and decoding it returns
/// the original text exactly. With `encode_text` feeding a whole-file write
/// and `decode_text` consuming a whole-file read, a written text reads back
/// unchanged.
pub proof fn lemma_text_round_trip(text: Seq<char>)
    ensures
        valid_utf8(encode_utf8(text)),
        decode_utf8(encode_utf8(text)) == text,
{
    encode_utf8_valid_utf8(text);
    encode_utf8_decode_utf8(text);
}

} // verus!
