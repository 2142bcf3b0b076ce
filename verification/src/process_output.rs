//! What a finished `cadence` subprocess hands back, and the UTF-8 decoding of
//! its byte streams.

use vstd::prelude::*;
use vstd::utf8::{decode_utf8, valid_utf8};

verus! {

/// The result of a `cadence` run that could be launched: whether it exited
/// successfully, and the bytes it wrote to stdout and stderr.
#[derive(Debug, Clone)]
pub struct ProcessReport {
    pub success: bool,
    pub stdout: Vec<u8>,
    pub stderr: Vec<u8>,
}

/// What `String::from_utf8_lossy` makes of `bytes`: the decoded text, with
/// each invalid sequence replaced by U+FFFD.
pub uninterp spec fn lossy_utf8(bytes: Seq<u8>) -> Seq<char>;

/// Calls `String::from_utf8_lossy`. Claimed: the result is `lossy_utf8` of the
/// bytes, and on valid UTF-8 it is the plain decoding (the documentation says
/// valid input is returned unchanged).
#[verifier::external_body]
pub(crate) fn decode_lossy(bytes: &[u8]) -> (text: String)
    ensures
        text@ == lossy_utf8(bytes@),
        valid_utf8(bytes@) ==> text@ == decode_utf8(bytes@),
{
    String::from_utf8_lossy(bytes).into_owned()
}

/// What the `Display` of the `FromUtf8Error` that `String::from_utf8`
/// returns for `bytes` reads (where and how the bytes stop being UTF-8).
pub uninterp spec fn utf8_error_text(bytes: Seq<u8>) -> Seq<char>;

/// Calls `String::from_utf8`. Claimed: it succeeds exactly on valid UTF-8,
/// with the decoded text; otherwise the error's `Display` text is
/// `utf8_error_text` of the bytes.
#[verifier::external_body]
pub(crate) fn decode_strict(bytes: Vec<u8>) -> (r: Result<String, String>)
    ensures
        r is Ok <==> valid_utf8(bytes@),
        r matches Ok(text) ==> text@ == decode_utf8(bytes@),
        r matches Err(e) ==> e@ == utf8_error_text(bytes@),
{
    match String::from_utf8(bytes) {
        Ok(text) => Ok(text),
        Err(e) => Err(e.to_string()),
    }
}

} // verus!
