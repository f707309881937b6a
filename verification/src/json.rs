//! JSON documents that the tool reads in the middle of its logic: the body an
//! OCR endpoint answers with, and the self-description a baseline prints.
//! Parsing is serde_json's; what the tool decides from the parsed document is
//! verified here.
use vstd::prelude::*;
use crate::text::{chars_of, lit, seq_contains, string_of, contains_chars, append_chars};
use crate::process::{ascii_lowercase, ascii_lowercase_chars};
use crate::unicode::{from_utf8_lossy, utf8_lossy};
use crate::ocr::OcrHttpResponse;

verus! {

/// What `serde_json::from_slice::<serde_json::Value>` makes of a byte string,
/// as the tool reads it: on success, whether the document is an object and the
/// string member under `key` (absent when there is no such member or it is not
/// a string); on failure, the error's message.
pub uninterp spec fn json_summary(bytes: Seq<u8>, key: Seq<char>) -> Result<(bool, Option<Seq<char>>), Seq<char>>;

/// A parsed summary, with its strings taken by their views.
pub open spec fn summary_view(r: Result<(bool, Option<String>), String>) -> Result<(bool, Option<Seq<char>>), Seq<char>> {
    match r {
        Ok((object, member)) => Ok((object, match member {
            Some(s) => Some(s@),
            None => None,
        })),
        Err(e) => Err(e@),
    }
}

/// Calls `serde_json::from_slice::<serde_json::Value>` on the bytes and reads
/// from the value whether it is an object and the string member under `key`
/// (`Value::get`, then `Value::as_str`). The contract claims only that the
/// outcome is the one the name `json_summary` stands for.
#[verifier::external_body]
fn parse_json_summary(bytes: &[u8], key: &str) -> (r: Result<(bool, Option<String>), String>)
    ensures
        summary_view(r) == json_summary(bytes@, key@),
{
    match serde_json::from_slice::<serde_json::Value>(bytes) {
        Ok(value) => Ok((
            value.is_object(),
            value.get(key).and_then(serde_json::Value::as_str).map(str::to_string),
        )),
        Err(error) => Err(error.to_string()),
    }
}

/// Whether a content type names a JSON body (`application/json`, in any case).
pub open spec fn is_json_content_type(content_type: Option<String>) -> bool {
    match content_type {
        Some(t) => seq_contains(ascii_lowercase(t@), "application/json"@),
        None => false,
    }
}

/// The text an OCR endpoint's JSON answer carries, given what parsing it gave.
pub open spec fn text_from_json(summary: Result<(bool, Option<Seq<char>>), Seq<char>>) -> Result<Seq<char>, Seq<char>> {
    match summary {
        Err(e) => Err("decode OCR HTTP JSON response: "@ + e),
        Ok((_, Some(text))) => Ok(text),
        Ok((_, None)) => Err("OCR HTTP JSON response missing text field"@),
    }
}

/// The text of an OCR endpoint's JSON answer: its string member `text`, or
/// the error that the answer could not be decoded or has no such member.
pub fn decoded_text_from_json(summary: Result<(bool, Option<String>), String>) -> (r: Result<String, String>)
    ensures
        match r {
            Ok(t) => text_from_json(summary_view(summary)) == Ok::<Seq<char>, Seq<char>>(t@),
            Err(e) => text_from_json(summary_view(summary)) == Err::<Seq<char>, Seq<char>>(e@),
        },
{
    match summary {
        Err(e) => {
            let mut msg = lit("decode OCR HTTP JSON response: ");
            let ev = chars_of(e.as_str());
            append_chars(&mut msg, &ev);
            Err(string_of(&msg))
        },
        Ok((_, Some(text))) => Ok(text),
        Ok((_, None)) => {
            let msg = lit("OCR HTTP JSON response missing text field");
            Err(string_of(&msg))
        },
    }
}

/// The text an OCR endpoint answered with: the `text` member of a JSON body
/// (by its content type), else the body decoded as UTF-8 with replacement.
pub open spec fn ocr_http_body_text(response: OcrHttpResponse) -> Result<Seq<char>, Seq<char>> {
    if is_json_content_type(response.content_type) {
        text_from_json(json_summary(response.body@, "text"@))
    } else {
        Ok(utf8_lossy(response.body@))
    }
}

/// Decodes the body of an OCR endpoint's answer to text.
pub fn decode_ocr_http_response_body(response: &OcrHttpResponse) -> (r: Result<String, String>)
    ensures
        match r {
            Ok(t) => ocr_http_body_text(*response) == Ok::<Seq<char>, Seq<char>>(t@),
            Err(e) => ocr_http_body_text(*response) == Err::<Seq<char>, Seq<char>>(e@),
        },
{
    let json = match &response.content_type {
        Some(t) => {
            let tv = chars_of(t.as_str());
            let lowered = ascii_lowercase_chars(&tv);
            contains_chars(&lowered, &lit("application/json"))
        },
        None => false,
    };
    if json {
        let summary = parse_json_summary(response.body.as_slice(), "text");
        decoded_text_from_json(summary)
    } else {
        Ok(from_utf8_lossy(response.body.as_slice()))
    }
}

/// Whether a baseline's `--describe` output is a JSON object.
pub open spec fn describes_json_object(stdout: Seq<u8>) -> bool {
    json_summary(stdout, "name"@) matches Ok((true, _))
}

/// Whether a baseline's `--describe` output parses as a JSON object.
pub fn stdout_is_json_object(stdout: &[u8]) -> (r: bool)
    ensures
        r == describes_json_object(stdout@),
{
    match parse_json_summary(stdout, "name") {
        Ok((object, _)) => object,
        Err(_) => false,
    }
}

} // verus!
