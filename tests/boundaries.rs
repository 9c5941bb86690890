use callvad::machine::{AudioState, ClipRange, ClipStateMachine, OFFSET};

#[test]
fn five_speech_detections_open_a_clip_at_the_fifth() {
    let mut m = ClipStateMachine::new();
    for seq in 1..=4 {
        assert_eq!(m.on_frame(true, false, seq), None);
        assert_eq!(m.state(), AudioState::Idle);
    }
    assert_eq!(m.on_frame(true, false, 5), None);
    assert_eq!(m.state(), AudioState::InSpeech);
    assert_eq!(m.clip_start(), Some(5));
}

#[test]
fn miss_on_fourth_detection_resets_progress() {
    let mut m = ClipStateMachine::new();
    for seq in 1..=3 {
        m.on_frame(true, false, seq);
    }
    m.on_frame(false, true, 4);
    for seq in 5..=8 {
        m.on_frame(true, false, seq);
        assert_eq!(m.state(), AudioState::Idle);
    }
    m.on_frame(true, false, 9);
    assert_eq!(m.state(), AudioState::InSpeech);
    assert_eq!(m.clip_start(), Some(9));
}

#[test]
fn frames_without_detection_are_not_evaluated() {
    let mut m = ClipStateMachine::new();
    for seq in 1..=4 {
        m.on_frame(true, false, seq);
        assert_eq!(m.on_frame(false, false, 100 + seq), None);
    }
    m.on_frame(true, false, 5);
    assert_eq!(m.state(), AudioState::InSpeech);
}

#[test]
fn three_pauses_then_next_frame_emits_range() {
    let mut m = ClipStateMachine::new();
    for seq in 1..=5 {
        m.on_frame(true, false, seq);
    }
    assert_eq!(m.on_frame(false, true, 10), None);
    assert_eq!(m.on_frame(false, true, 11), None);
    assert_eq!(m.state(), AudioState::InSpeech);
    assert_eq!(m.on_frame(false, true, 12), None);
    assert_eq!(m.state(), AudioState::PostSpeech);
    assert_eq!(m.clip_start(), Some(5));
    assert_eq!(m.on_frame(false, true, 20), Some(ClipRange { start: 5, end: 20 }));
    assert_eq!(m.state(), AudioState::Idle);
    assert_eq!(m.clip_start(), None);
}

#[test]
fn speech_detection_in_speech_resets_pause_count() {
    let mut m = ClipStateMachine::new();
    for seq in 1..=5 {
        m.on_frame(true, false, seq);
    }
    m.on_frame(false, true, 6);
    m.on_frame(false, true, 7);
    m.on_frame(true, false, 8);
    m.on_frame(false, true, 9);
    m.on_frame(false, true, 10);
    assert_eq!(m.state(), AudioState::InSpeech);
    m.on_frame(false, true, 11);
    assert_eq!(m.state(), AudioState::PostSpeech);
}

#[test]
fn both_detections_cause_one_transition_only() {
    let mut m = ClipStateMachine::new();
    for seq in 1..=5 {
        assert_eq!(m.on_frame(true, true, seq), None);
    }
    assert_eq!(m.state(), AudioState::InSpeech);
    assert_eq!(m.clip_start(), Some(5));
}

#[test]
fn widened_range_adds_offset_and_saturates() {
    let r = ClipRange { start: 25, end: 85 };
    assert_eq!(r.widened(OFFSET as u32), ClipRange { start: 15, end: 95 });
    let edge = ClipRange { start: i32::MIN + 3, end: i32::MAX - 3 };
    assert_eq!(edge.widened(10), ClipRange { start: i32::MIN, end: i32::MAX });
    assert_eq!(r.widened(0), r);
}
