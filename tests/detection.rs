use callvad::detector::{SlidingWindowDetector, Trigger};

#[test]
fn speech_fires_once_on_fifth_loud_value_and_clears() {
    let mut d = SlidingWindowDetector::speech();
    for _ in 0..4 {
        assert!(!d.observe(8000));
    }
    assert!(d.observe(8000));
    // the window was cleared, so the next loud value does not fire again
    for _ in 0..4 {
        assert!(!d.observe(8000));
    }
    assert!(d.observe(8000));
}

#[test]
fn speech_run_broken_by_quiet_value_never_fires() {
    let mut d = SlidingWindowDetector::speech();
    for _ in 0..4 {
        assert!(!d.observe(8000));
    }
    assert!(!d.observe(100));
    // the quiet value stays in the window for the next four observations
    for _ in 0..4 {
        assert!(!d.observe(8000));
    }
    assert!(d.observe(8000));
}

#[test]
fn speech_threshold_is_strict() {
    let mut d = SlidingWindowDetector::speech();
    for _ in 0..10 {
        assert!(!d.observe(5000));
    }
}

#[test]
fn pause_fires_on_fifteenth_quiet_value() {
    let mut d = SlidingWindowDetector::pause();
    for _ in 0..14 {
        assert!(!d.observe(100));
    }
    assert!(d.observe(100));
}

#[test]
fn pause_run_broken_by_loud_value_never_fires() {
    let mut d = SlidingWindowDetector::pause();
    for _ in 0..14 {
        assert!(!d.observe(0));
    }
    assert!(!d.observe(2000));
}

#[test]
fn partial_requirement_fires_on_majority() {
    let mut d = SlidingWindowDetector::new(3, 2, Trigger::Above(10));
    assert!(!d.observe(20));
    assert!(!d.observe(0));
    assert!(d.observe(20));
    assert!(!d.observe(20));
}
