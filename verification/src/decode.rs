//! The encoding detector/decoder: adaptive detection that tries UTF-8
//! first and falls back to Shift_JIS, never panicking on bad bytes.

use crate::error::ReportError;
use vstd::prelude::*;
use vstd::string::StringExecFns;
use vstd::utf8::{decode_utf8, valid_utf8};

verus! {

/// What Shift_JIS decoding yields on a byte sequence: the decoded
/// characters, or nothing if any byte sequence is invalid under Shift_JIS.
/// The result is a function of the bytes alone.
pub uninterp spec fn shift_jis_decoding(bytes: Seq<u8>) -> Option<Seq<char>>;

/// Relies on `core::str::from_utf8`: returns the string viewing the bytes
/// exactly when they are valid UTF-8.
#[verifier::external_body]
fn try_utf8(bytes: &[u8]) -> (r: Option<&str>)
    ensures
        r is Some <==> valid_utf8(bytes@),
        r matches Some(s) ==> s@ == decode_utf8(bytes@),
{
    core::str::from_utf8(bytes).ok()
}

/// Relies on `encoding_rs::SHIFT_JIS.decode_without_bom_handling_and_without_replacement`:
/// decodes the whole buffer as Shift_JIS, refusing any malformed sequence.
/// The length bound keeps the crate's internal buffer-size computation,
/// which can panic on overflow, in range.
#[verifier::external_body]
fn decode_shift_jis(bytes: &[u8]) -> (r: Option<String>)
    requires
        bytes@.len() * 3 + 16 <= usize::MAX,
    ensures
        r is Some <==> shift_jis_decoding(bytes@) is Some,
        r matches Some(s) ==> Some(s@) == shift_jis_decoding(bytes@),
{
    match encoding_rs::SHIFT_JIS.decode_without_bom_handling_and_without_replacement(bytes) {
        Some(cow) => Some(cow.into_owned()),
        None => None,
    }
}

/// What decoding yields on a byte buffer: the UTF-8 reading when the bytes
/// are valid UTF-8, otherwise the Shift_JIS reading, otherwise nothing.
/// Oversized buffers whose legacy decode could not be sized safely also
/// yield nothing.
pub open spec fn spec_decode(bytes: Seq<u8>) -> Option<Seq<char>> {
    if valid_utf8(bytes) {
        Some(decode_utf8(bytes))
    } else if bytes.len() * 3 + 16 <= usize::MAX {
        shift_jis_decoding(bytes)
    } else {
        None
    }
}

/// Decoding is the identity transform on valid UTF-8: the bytes of any
/// text decode back to exactly that text, with no fallback involved.
pub proof fn lemma_decode_utf8_identity(chars: Seq<char>)
    ensures
        spec_decode(vstd::utf8::encode_utf8(chars)) == Some(chars),
{
    vstd::utf8::encode_utf8_valid_utf8(chars);
    vstd::utf8::encode_utf8_decode_utf8(chars);
}

/// Decodes a byte buffer to text: UTF-8 input decodes as itself, and
/// anything else falls back to Shift_JIS. Fails with `DecodeError` exactly
/// when neither encoding accepts the bytes.
pub fn decode(bytes: &[u8]) -> (r: Result<String, ReportError>)
    ensures
        match r {
            Ok(s) => spec_decode(bytes@) == Some(s@),
            Err(e) => spec_decode(bytes@) is None && e == ReportError::DecodeError,
        },
        valid_utf8(bytes@) ==> (r matches Ok(s) && s@ == decode_utf8(bytes@)),
{
    match try_utf8(bytes) {
        Some(s) => Ok(String::from_str(s)),
        None => {
            if bytes.len() > (usize::MAX - 16) / 3 {
                return Err(ReportError::DecodeError);
            }
            match decode_shift_jis(bytes) {
                Some(s) => Ok(s),
                None => Err(ReportError::DecodeError),
            }
        },
    }
}

} // verus!
