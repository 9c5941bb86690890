//! Reading inbound messages: a JSON envelope whose `media` events carry a decimal
//! sequence number and a base64 payload of mu-law bytes.
use vstd::prelude::*;
use crate::machine::ClipRange;
use crate::session::{Session, SessionModel, session_step, session_wf};

verus! {

/// Why a message was dropped; none of these ends the session.
#[derive(Clone, Copy, Debug, PartialEq, Eq, Structural)]
pub enum FrameError {
    /// The envelope is not JSON, or the payload is not base64.
    Decode,
    /// A field is missing, has another type, or the sequence number is not a decimal `i32`.
    Protocol,
}

pub open spec fn is_digit(c: char) -> bool {
    '0' <= c <= '9'
}

/// Value of a string of decimal digits.
pub open spec fn digits_value(s: Seq<char>) -> int
    decreases s.len(),
{
    if s.len() == 0 {
        0
    } else {
        digits_value(s.drop_last()) * 10 + (s.last() as int - '0' as int)
    }
}

/// A decimal `i32`: an optional sign, then one or more ASCII digits, in range.
pub open spec fn decimal_i32(s: Seq<char>) -> Option<i32> {
    let negative = s.len() > 0 && s[0] == '-';
    let digits = if s.len() > 0 && (s[0] == '-' || s[0] == '+') {
        s.drop_first()
    } else {
        s
    };
    let value = if negative {
        -digits_value(digits)
    } else {
        digits_value(digits)
    };
    if digits.len() == 0 || !(forall|i: int| 0 <= i < digits.len() ==> is_digit(#[trigger] digits[i])) {
        None
    } else if i32::MIN <= value <= i32::MAX {
        Some(value as i32)
    } else {
        None
    }
}

/// The bytes that the standard base64 alphabet, with padding, decodes `text` to, if any.
pub uninterp spec fn base64_decoded(text: Seq<char>) -> Option<Seq<u8>>;

/// Relies on `str::parse::<i32>`: an optional `+` or `-`, then decimal digits, in range.
#[verifier::external_body]
fn parse_sequence_number(text: &str) -> (r: Option<i32>)
    ensures
        r == decimal_i32(text@),
{
    text.parse::<i32>().ok()
}

/// Relies on `base64::decode` (the standard engine): the bytes depend on the text alone.
#[verifier::external_body]
fn decode_base64(text: &str) -> (r: Option<Vec<u8>>)
    ensures
        match r {
            Some(bytes) => base64_decoded(text@) == Some(bytes@),
            None => base64_decoded(text@) is None,
        },
{
    base64::Engine::decode(&base64::engine::general_purpose::STANDARD, text).ok()
}

/// Whether the text is a JSON document.
pub uninterp spec fn json_parses(text: Seq<char>) -> bool;

/// The string held under `key` at the top level of the JSON document `text`; `None` when
/// the text is not JSON, is not an object, lacks the key, or holds no string there.
pub uninterp spec fn json_str_member(text: Seq<char>, key: Seq<char>) -> Option<Seq<char>>;

/// The string held under `outer`, then `inner`, in the JSON document `text`; `None` when
/// any step of the way is missing or the value found is not a string.
pub uninterp spec fn json_nested_str_member(text: Seq<char>, outer: Seq<char>, inner: Seq<char>) -> Option<Seq<char>>;

/// Relies on `serde_json::from_str` into a `serde_json::Value`: whether the text is JSON.
#[verifier::external_body]
fn is_json(text: &str) -> (r: bool)
    ensures
        r == json_parses(text@),
{
    serde_json::from_str::<serde_json::Value>(text).is_ok()
}

/// Relies on `serde_json::from_str` into a `serde_json::Value`, indexing it by `key` (which
/// yields `Null` for a missing key or a non-object) and `Value::as_str`.
#[verifier::external_body]
fn json_str_field(text: &str, key: &str) -> (r: Option<String>)
    ensures
        match r {
            Some(v) => json_str_member(text@, key@) == Some(v@),
            None => json_str_member(text@, key@) is None,
        },
{
    serde_json::from_str::<serde_json::Value>(text).ok().and_then(|v| v[key].as_str().map(|x| x.to_string()))
}

/// Relies on `serde_json::from_str` into a `serde_json::Value`, indexing it by `outer` and
/// then by `inner` (each yields `Null` for a missing key or a non-object) and
/// `Value::as_str`.
#[verifier::external_body]
fn json_nested_str_field(text: &str, outer: &str, inner: &str) -> (r: Option<String>)
    ensures
        match r {
            Some(v) => json_nested_str_member(text@, outer@, inner@) == Some(v@),
            None => json_nested_str_member(text@, outer@, inner@) is None,
        },
{
    serde_json::from_str::<serde_json::Value>(text).ok().and_then(
        |v| v[outer][inner].as_str().map(|x| x.to_string()),
    )
}

/// Outcome of one `media` event's fields: the session after it and the result.
pub open spec fn media_step(s: SessionModel, sequence_text: Seq<char>, payload_text: Seq<char>) -> (
    SessionModel,
    Result<Option<ClipRange>, FrameError>,
) {
    match decimal_i32(sequence_text) {
        None => (s, Err(FrameError::Protocol)),
        Some(sequence) => match base64_decoded(payload_text) {
            None => (s, Err(FrameError::Decode)),
            Some(bytes) => {
                let (next, range) = session_step(s, sequence, bytes);
                (next, Ok(range))
            },
        },
    }
}

/// Outcome of one inbound text message: not JSON is a decode error; an event other than
/// `media` is ignored; a `media` event without a sequence-number or payload string is a
/// protocol error; otherwise its fields are handled. Only the last case changes the session.
pub open spec fn message_step(s: SessionModel, text: Seq<char>) -> (
    SessionModel,
    Result<Option<ClipRange>, FrameError>,
) {
    if !json_parses(text) {
        (s, Err(FrameError::Decode))
    } else if json_str_member(text, "event"@) != Some("media"@) {
        (s, Ok(None))
    } else {
        match json_str_member(text, "sequenceNumber"@) {
            None => (s, Err(FrameError::Protocol)),
            Some(sequence_text) => match json_nested_str_member(text, "media"@, "payload"@) {
                None => (s, Err(FrameError::Protocol)),
                Some(payload_text) => media_step(s, sequence_text, payload_text),
            },
        }
    }
}

/// Handles the fields of one `media` event: the sequence number must be a decimal
/// `i32` and the payload base64. Either failure drops the frame and leaves the session
/// as it was; otherwise the decoded frame is processed.
pub fn handle_media(session: &mut Session, sequence_text: &str, payload_text: &str) -> (r: Result<
    Option<ClipRange>,
    FrameError,
>)
    requires
        old(session).wf(),
    ensures
        final(session).wf(),
        session_wf(final(session)@),
        (final(session)@, r) == media_step(old(session)@, sequence_text@, payload_text@),
{
    proof {
        session.lemma_wf_model();
    }
    let sequence = match parse_sequence_number(sequence_text) {
        Some(n) => n,
        None => {
            return Err(FrameError::Protocol);
        },
    };
    let payload = match decode_base64(payload_text) {
        Some(bytes) => bytes,
        None => {
            return Err(FrameError::Decode);
        },
    };
    Ok(session.process_frame(sequence, payload))
}

/// Handles one inbound text message. Events other than `media` are ignored. A message
/// that cannot be read is dropped with its error and leaves the session as it was; a
/// `media` event is processed as its fields say.
pub fn handle_message(session: &mut Session, text: &str) -> (r: Result<Option<ClipRange>, FrameError>)
    requires
        old(session).wf(),
    ensures
        final(session).wf(),
        session_wf(final(session)@),
        (final(session)@, r) == message_step(old(session)@, text@),
{
    proof {
        session.lemma_wf_model();
    }
    if !is_json(text) {
        return Err(FrameError::Decode);
    }
    let is_media = match json_str_field(text, "event") {
        Some(e) => e == "media".to_owned(),
        None => false,
    };
    if !is_media {
        return Ok(None);
    }
    let sequence_text = match json_str_field(text, "sequenceNumber") {
        Some(s) => s,
        None => {
            return Err(FrameError::Protocol);
        },
    };
    let payload_text = match json_nested_str_field(text, "media", "payload") {
        Some(s) => s,
        None => {
            return Err(FrameError::Protocol);
        },
    };
    handle_media(session, sequence_text.as_str(), payload_text.as_str())
}

} // verus!
