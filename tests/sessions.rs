use callvad::envelope::{handle_media, handle_message, FrameError};
use callvad::machine::{AudioState, ClipRange};
use callvad::session::Session;

const LOUD: u8 = 0x80;
const QUIET: u8 = 0xFF;

fn feed(s: &mut Session, from: i32, to: i32, byte: u8, out: &mut Vec<ClipRange>) {
    for seq in from..=to {
        if let Some(r) = s.process_frame(seq, vec![byte, byte]) {
            out.push(r);
        }
    }
}

#[test]
fn utterance_is_segmented_end_to_end() {
    let mut s = Session::new();
    let mut out = Vec::new();
    feed(&mut s, 1, 24, LOUD, &mut out);
    assert_eq!(s.state(), AudioState::Idle);
    feed(&mut s, 25, 25, LOUD, &mut out);
    assert_eq!(s.state(), AudioState::InSpeech);
    assert_eq!(s.clip_start(), Some(25));
    feed(&mut s, 26, 69, QUIET, &mut out);
    assert_eq!(s.state(), AudioState::InSpeech);
    feed(&mut s, 70, 70, QUIET, &mut out);
    assert_eq!(s.state(), AudioState::PostSpeech);
    feed(&mut s, 71, 84, QUIET, &mut out);
    assert!(out.is_empty());
    feed(&mut s, 85, 100, QUIET, &mut out);
    assert_eq!(out, vec![ClipRange { start: 25, end: 85 }]);
    assert_eq!(s.state(), AudioState::Idle);
    assert_eq!(s.clip_start(), None);
}

#[test]
fn short_burst_after_silence_does_not_open_a_clip() {
    let mut s = Session::new();
    let mut out = Vec::new();
    for seq in 1..=4 {
        assert_eq!(s.process_frame(seq, vec![]), None);
    }
    feed(&mut s, 5, 9, LOUD, &mut out);
    // one speech detection, at frame 9, counts once toward the five needed
    assert_eq!(s.state(), AudioState::Idle);
    feed(&mut s, 10, 24, QUIET, &mut out);
    assert_eq!(s.state(), AudioState::Idle);
    assert!(out.is_empty());
}

#[test]
fn interleaved_sessions_do_not_interfere() {
    let mut alone = Session::new();
    let mut alone_out = Vec::new();
    feed(&mut alone, 1, 25, LOUD, &mut alone_out);
    feed(&mut alone, 26, 100, QUIET, &mut alone_out);

    let mut a = Session::new();
    let mut b = Session::new();
    let mut a_out = Vec::new();
    let mut b_out = Vec::new();
    for seq in 1..=100 {
        let a_byte = if seq <= 25 { LOUD } else { QUIET };
        let b_byte = if seq % 3 == 0 { QUIET } else { LOUD };
        if let Some(r) = b.process_frame(seq, vec![b_byte]) {
            b_out.push(r);
        }
        if let Some(r) = a.process_frame(seq, vec![a_byte]) {
            a_out.push(r);
        }
    }
    assert_eq!(a_out, alone_out);
    assert_eq!(b_out, Vec::new());
    assert_eq!(b.state(), AudioState::Idle);
}

#[test]
fn media_message_stores_decoded_payload() {
    let mut s = Session::new();
    let msg = r#"{"event":"media","sequenceNumber":"7","media":{"payload":"gP8="}}"#;
    assert_eq!(handle_message(&mut s, msg), Ok(None));
    assert_eq!(s.store().range_lookup(7, 7), vec![vec![0x80, 0xFF]]);
}

#[test]
fn other_events_are_ignored() {
    let mut s = Session::new();
    let msg = r#"{"event":"start","sequenceNumber":"1","media":{"payload":"gP8="}}"#;
    assert_eq!(handle_message(&mut s, msg), Ok(None));
    assert_eq!(s.store().range_lookup(0, 10), Vec::<Vec<u8>>::new());
}

#[test]
fn malformed_envelope_is_a_decode_error() {
    let mut s = Session::new();
    assert_eq!(handle_message(&mut s, "not json"), Err(FrameError::Decode));
}

#[test]
fn missing_payload_is_a_protocol_error() {
    let mut s = Session::new();
    let msg = r#"{"event":"media","sequenceNumber":"1"}"#;
    assert_eq!(handle_message(&mut s, msg), Err(FrameError::Protocol));
}

#[test]
fn bad_sequence_number_is_a_protocol_error() {
    let mut s = Session::new();
    assert_eq!(handle_media(&mut s, "12a", "gA=="), Err(FrameError::Protocol));
    assert_eq!(handle_media(&mut s, "", "gA=="), Err(FrameError::Protocol));
    assert_eq!(handle_media(&mut s, "2147483648", "gA=="), Err(FrameError::Protocol));
    assert_eq!(s.store().range_lookup(i32::MIN, i32::MIN + 2), Vec::<Vec<u8>>::new());
}

#[test]
fn signed_sequence_numbers_parse() {
    let mut s = Session::new();
    assert_eq!(handle_media(&mut s, "-3", "gA=="), Ok(None));
    assert_eq!(handle_media(&mut s, "+4", "/w=="), Ok(None));
    assert_eq!(s.store().range_lookup(-3, 4), vec![vec![0x80], vec![0xFF]]);
}

#[test]
fn bad_base64_is_a_decode_error() {
    let mut s = Session::new();
    assert_eq!(handle_media(&mut s, "1", "***"), Err(FrameError::Decode));
    assert_eq!(s.store().range_lookup(1, 1), Vec::<Vec<u8>>::new());
}

#[test]
fn speach_and_pause_detection_feed_own_windows() {
    let mut s = Session::new();
    for _ in 0..4 {
        assert!(!s.speach_detection(8000));
    }
    for _ in 0..14 {
        assert!(!s.pause_detection(100));
    }
    assert!(s.speach_detection(8000));
    assert!(s.pause_detection(100));
}

#[test]
fn unreachable_frames_are_discarded() {
    let mut s = Session::new();
    let mut out = Vec::new();
    feed(&mut s, 1, 24, LOUD, &mut out);
    s.discard_unreachable();
    assert_eq!(s.store().range_lookup(1, 24), Vec::<Vec<u8>>::new());
    feed(&mut s, 25, 30, LOUD, &mut out);
    s.discard_unreachable();
    assert_eq!(s.clip_start(), Some(25));
    assert_eq!(s.store().range_lookup(1, 30).len(), 6);
    feed(&mut s, 31, 89, QUIET, &mut out);
    assert!(out.is_empty());
    feed(&mut s, 90, 90, QUIET, &mut out);
    assert_eq!(out, vec![ClipRange { start: 25, end: 90 }]);
    assert_eq!(s.store().range_lookup(25, 90).len(), 66);
    s.discard_unreachable();
    assert_eq!(s.store().range_lookup(1, 100), Vec::<Vec<u8>>::new());
}

#[test]
fn json_without_media_event_is_ignored() {
    let mut s = Session::new();
    assert_eq!(handle_message(&mut s, "[1, 2]"), Ok(None));
    assert_eq!(handle_message(&mut s, r#"{"sequenceNumber":"1"}"#), Ok(None));
    assert_eq!(s.store().range_lookup(0, 10), Vec::<Vec<u8>>::new());
}

#[test]
fn numeric_sequence_number_is_a_protocol_error() {
    let mut s = Session::new();
    let msg = r#"{"event":"media","sequenceNumber":7,"media":{"payload":"gA=="}}"#;
    assert_eq!(handle_message(&mut s, msg), Err(FrameError::Protocol));
    assert_eq!(s.store().range_lookup(0, 10), Vec::<Vec<u8>>::new());
}
