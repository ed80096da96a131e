//! The decision logic of the typed read primitives.
//!
//! The caller performs the whole-file operating-system read and hands its
//! outcome here — the bytes, or the failure's description. These functions
//! classify the failure, decode the bytes, and parse structured content,
//! and say exactly which outcomes succeed: an operating-system failure or
//! malformed encoding is a read failure, a well-formed read of an ill-formed
//! document a parse failure, and nothing else goes wrong.

use vstd::prelude::*;
use vstd::utf8::decode_utf8;
use vstd::utf8::valid_utf8;

use crate::errors::OpError;
use crate::json::JsonValue;
use crate::json_grammar::parse_doc;
use crate::json_parse::parse_text;
use crate::text::decode_text;

verus! {

/// Decide a text read from `path`: the bytes the read produced decode as
/// UTF-8 text, or the failure is classified as a read error — whether the
/// read itself failed or its bytes were malformed.
pub fn text_read_outcome(path: &str, raw: Result<Vec<u8>, String>) -> (r: Result<
    String,
    OpError,
>)
    ensures
        r is Ok <==> raw is Ok && valid_utf8(raw->Ok_0@),
        r is Ok ==> r->Ok_0@ == decode_utf8(raw->Ok_0@),
        r is Err ==> r->Err_0.kind is Read && r->Err_0.path@ == path@,
{
    match raw {
        Ok(bytes) => decode_text(path, bytes),
        Err(cause) => Err(OpError::read(path, cause.as_str())),
    }
}

/// Decide a structured read from `path`: the bytes decode as UTF-8 text and
/// that text parses as a structured document. A failed read or malformed
/// encoding is a read error; text that is no well-formed document is a
/// parse error, distinguishable from the read having failed.
pub fn structured_read_outcome(path: &str, raw: Result<Vec<u8>, String>) -> (r: Result<
    JsonValue,
    OpError,
>)
    ensures
        r is Ok <==> raw is Ok && valid_utf8(raw->Ok_0@) && parse_doc(
            decode_utf8(raw->Ok_0@),
        ) is Some,
        r is Ok ==> parse_doc(decode_utf8(raw->Ok_0@)) == Some(r->Ok_0.deep()),
        r is Err ==> r->Err_0.path@ == path@,
        r is Err && !(raw is Ok && valid_utf8(raw->Ok_0@)) ==> r->Err_0.kind is Read,
        r is Err && raw is Ok && valid_utf8(raw->Ok_0@) ==> r->Err_0.kind is Parse,
{
    match text_read_outcome(path, raw) {
        Ok(text) => parse_text(path, text.as_str()),
        Err(e) => Err(e),
    }
}

} // verus!
