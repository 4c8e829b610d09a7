//! Base64 encoding and decoding of text, the primitive the JWT decoder
//! builds on. The base64 transformation itself comes from the `base64`
//! crate; the logic around it (trimming, emptiness, error wrapping and the
//! UTF-8 step) is verified here.

use base64::Engine;
use vstd::prelude::*;
use vstd::string::StrSliceExecFns;
use vstd::string::StringExecFns;
use vstd::string::StringSliceAdditionalSpecFns;
use vstd::utf8::decode_utf8;
use vstd::utf8::encode_utf8;
use vstd::utf8::encode_utf8_decode_utf8;
use vstd::utf8::encode_utf8_valid_utf8;
use vstd::utf8::valid_utf8;
use crate::errors::ErrorKind;
use crate::errors::FormatError;
use crate::text::is_ws;
use crate::text::lemma_trim_no_ws;
use crate::text::str_to_chars;
use crate::text::trim_chars;
use crate::text::trim_of;
use crate::text::chars_to_string;

verus! {

/// What the standard-alphabet base64 encoding of `b` reads as.
pub uninterp spec fn b64_encode_of(b: Seq<u8>) -> Seq<char>;

/// What standard-alphabet base64 decoding of `s` yields, `None` on invalid
/// input.
pub uninterp spec fn b64_decode_of(s: Seq<char>) -> Option<Seq<u8>>;

/// How the base64 decode error for `s` renders.
pub uninterp spec fn b64_decode_err_of(s: Seq<char>) -> Seq<char>;

/// How the UTF-8 conversion error for `b` renders.
pub uninterp spec fn utf8_err_of(b: Seq<u8>) -> Seq<char>;

/// The characters base64's standard alphabet (with padding) can emit.
pub open spec fn is_b64_std_char(c: char) -> bool {
    ('A' <= c && c <= 'Z') || ('a' <= c && c <= 'z') || ('0' <= c && c <= '9') || c == '+'
        || c == '/' || c == '='
}

pub proof fn lemma_b64_char_not_ws(c: char)
    requires
        is_b64_std_char(c),
    ensures
        !is_ws(c),
{
}

/// Relies on the `base64` crate's `STANDARD` engine `encode` (RFC 4648 with
/// padding): the output is a function of the input bytes alone, is drawn from
/// the standard alphabet, is nonempty for nonempty input, and `decode` gives
/// the input back. `encode` panics when the output length would overflow
/// `usize`, so that input is excluded here.
#[verifier::external_body]
fn b64_encode_bytes(bytes: &Vec<u8>) -> (r: String)
    requires
        bytes@.len() <= 3 * (usize::MAX as int / 4),
    ensures
        r@ == b64_encode_of(bytes@),
        forall|i: int| 0 <= i < r@.len() ==> is_b64_std_char(#[trigger] r@[i]),
        b64_decode_of(r@) == Some(bytes@),
        bytes@.len() > 0 ==> r@.len() > 0,
{
    base64::engine::general_purpose::STANDARD.encode(bytes.as_slice())
}

/// Relies on the `base64` crate's `STANDARD` engine `decode` and on
/// `DecodeError`'s rendering: both are functions of the input alone.
#[verifier::external_body]
pub(crate) fn b64_decode(text: &str) -> (r: Result<Vec<u8>, String>)
    ensures
        r matches Ok(b) ==> b64_decode_of(text@) == Some(b@),
        r is Err <==> b64_decode_of(text@) is None,
        r matches Err(m) ==> m@ == b64_decode_err_of(text@),
{
    match base64::engine::general_purpose::STANDARD.decode(text) {
        Ok(b) => Ok(b),
        Err(e) => Err(e.to_string()),
    }
}

/// Relies on `String::from_utf8`: it succeeds exactly on valid UTF-8, decodes
/// it, and its error's rendering depends on the bytes alone.
#[verifier::external_body]
pub(crate) fn string_from_utf8(bytes: Vec<u8>) -> (r: Result<String, String>)
    ensures
        r is Ok <==> valid_utf8(bytes@),
        r matches Ok(s) ==> s@ == decode_utf8(bytes@),
        r matches Err(m) ==> m@ == utf8_err_of(bytes@),
{
    match String::from_utf8(bytes) {
        Ok(s) => Ok(s),
        Err(e) => Err(e.to_string()),
    }
}

proof fn lemma_encode_utf8_lower(s: Seq<char>)
    ensures
        encode_utf8(s).len() >= s.len(),
    decreases s.len(),
{
    if s.len() > 0 {
        lemma_encode_utf8_lower(s.drop_first());
    }
}

/// The message decoding reports for invalid base64 in `t`.
pub open spec fn b64_err_message(t: Seq<char>) -> Seq<char> {
    "Invalid base64 encoding: "@ + b64_decode_err_of(t)
}

/// The message decoding reports for decoded bytes `b` that are not UTF-8.
pub open spec fn utf8_err_message(b: Seq<u8>) -> Seq<char> {
    "Invalid UTF-8 in decoded data: "@ + utf8_err_of(b)
}

/// What `decode_base64` returns: the input is trimmed, an empty remainder
/// decodes to the empty string, and otherwise base64 decoding and UTF-8
/// conversion must both succeed.
pub open spec fn decode_base64_spec(s: Seq<char>) -> Result<Seq<char>, Seq<char>> {
    let t = trim_of(s);
    if t.len() == 0 {
        Ok(Seq::empty())
    } else {
        match b64_decode_of(t) {
            None => Err(b64_err_message(t)),
            Some(bytes) => if valid_utf8(bytes) {
                Ok(decode_utf8(bytes))
            } else {
                Err(utf8_err_message(bytes))
            },
        }
    }
}

/// What `encode_base64` returns for `text`, at the message level.
pub open spec fn encode_base64_spec(s: Seq<char>) -> Result<Seq<char>, Seq<char>> {
    if s.len() == 0 {
        Ok(Seq::empty())
    } else if encode_utf8(s).len() <= 3 * (usize::MAX as int / 4) {
        Ok(b64_encode_of(encode_utf8(s)))
    } else {
        Err("Content too large to encode"@)
    }
}

/// Base64-encodes the UTF-8 bytes of `text`; empty input encodes to the
/// empty string. Decoding the result gives `text` back (the round trip is
/// part of the contract). Input whose encoding could not fit in a `usize`
/// of memory is rejected with an error rather than aborting.
pub fn encode_base64(text: &str) -> (r: Result<String, FormatError>)
    ensures
        text@.len() == 0 ==> (r matches Ok(out) && out@ == Seq::<char>::empty()),
        text@.len() > 0 && text.spec_bytes().len() <= 3 * (usize::MAX as int / 4) ==> (
        r matches Ok(out) && out@ == b64_encode_of(text.spec_bytes())),
        text.spec_bytes().len() > 3 * (usize::MAX as int / 4) ==> (r matches Err(e) && e.kind
            == ErrorKind::EncodingFailure),
        r matches Ok(out) ==> decode_base64_spec(out@) == Ok::<Seq<char>, Seq<char>>(text@),
        match encode_base64_spec(text@) {
            Ok(x) => r matches Ok(o) && o@ == x,
            Err(m) => r matches Err(e) && e.message@ == m && e.kind == ErrorKind::EncodingFailure,
        },
{
    if text.is_empty() {
        let out = String::new();
        proof {
            assert(trim_of(out@) =~= out@);
            assert(text@ =~= Seq::<char>::empty());
            assert(decode_base64_spec(out@) == Ok::<Seq<char>, Seq<char>>(text@));
        }
        return Ok(out);
    }
    let bv = text.as_bytes_vec();
    if bv.len() > usize::MAX / 4 * 3 {
        return Err(
            FormatError::new(
                ErrorKind::EncodingFailure,
                String::from_str("Content too large to encode"),
            ),
        );
    }
    let out = b64_encode_bytes(&bv);
    proof {
        broadcast use encode_utf8_valid_utf8, encode_utf8_decode_utf8;

        lemma_encode_utf8_lower(text@);
        assert(bv@ == encode_utf8(text@));
        assert(forall|i: int| 0 <= i < out@.len() ==> !is_ws(#[trigger] out@[i]));
        lemma_trim_no_ws(out@);
        assert(out@.len() > 0);
        assert(decode_base64_spec(out@) == Ok::<Seq<char>, Seq<char>>(text@));
    }
    Ok(out)
}

/// Trims and base64-decodes `text` into UTF-8 text; an empty (or all
/// whitespace) input decodes to the empty string.
pub fn decode_base64(text: &str) -> (r: Result<String, FormatError>)
    ensures
        decode_base64_spec(text@) matches Ok(s) ==> (r matches Ok(out) && out@ == s),
        decode_base64_spec(text@) matches Err(m) ==> (r matches Err(e) && e.kind
            == ErrorKind::EncodingFailure && e.message@ == m && e.location is None),
{
    let chars = str_to_chars(text);
    let trimmed = trim_chars(&chars);
    if trimmed.len() == 0 {
        return Ok(String::new());
    }
    let t = chars_to_string(&trimmed);
    match b64_decode(t.as_str()) {
        Err(m) => {
            let mut msg = String::from_str("Invalid base64 encoding: ");
            msg.append(m.as_str());
            Err(FormatError::new(ErrorKind::EncodingFailure, msg))
        },
        Ok(bytes) => {
            let ghost decoded_bytes = bytes@;
            match string_from_utf8(bytes) {
                Ok(s) => Ok(s),
                Err(m) => {
                    let mut msg = String::from_str("Invalid UTF-8 in decoded data: ");
                    msg.append(m.as_str());
                    Err(FormatError::new(ErrorKind::EncodingFailure, msg))
                },
            }
        },
    }
}

} // verus!
