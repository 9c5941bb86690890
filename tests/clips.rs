use callvad::assembler::{
    next_assembly_action, process_audio_batch, process_audio_clip, AssemblyAction, AssemblyEvent,
};
use callvad::store::FrameStore;

#[test]
fn range_lookup_skips_missing_sequences() {
    let mut s = FrameStore::new();
    s.insert_message(1, vec![1]);
    s.insert_message(2, vec![2, 2]);
    s.insert_message(4, vec![4]);
    s.insert_message(5, vec![5]);
    assert_eq!(s.range_lookup(1, 5), vec![vec![1], vec![2, 2], vec![4], vec![5]]);
}

#[test]
fn range_lookup_is_inclusive_and_bounded() {
    let mut s = FrameStore::new();
    for seq in 1..=6 {
        s.insert_message(seq, vec![seq as u8]);
    }
    assert_eq!(s.range_lookup(2, 4), vec![vec![2], vec![3], vec![4]]);
    assert_eq!(s.range_lookup(5, 4), Vec::<Vec<u8>>::new());
    assert_eq!(s.range_lookup(7, 9), Vec::<Vec<u8>>::new());
}

#[test]
fn insert_overwrites_earlier_payload() {
    let mut s = FrameStore::new();
    s.insert_message(3, vec![1]);
    s.insert_message(3, vec![9, 9]);
    assert_eq!(s.range_lookup(3, 3), vec![vec![9, 9]]);
}

#[test]
fn range_lookup_at_extreme_sequence_numbers() {
    let mut s = FrameStore::new();
    s.insert_message(i32::MAX, vec![7]);
    s.insert_message(i32::MAX - 2, vec![5]);
    assert_eq!(s.range_lookup(i32::MAX - 3, i32::MAX), vec![vec![5], vec![7]]);
}

#[test]
fn empty_lookup_assembles_nothing() {
    let mut s = FrameStore::new();
    s.insert_message(1, vec![1]);
    assert!(process_audio_clip(&s, 2, 10).is_none());
}

#[test]
fn clip_joins_payloads_in_order() {
    let mut s = FrameStore::new();
    s.insert_message(5, vec![5, 5]);
    s.insert_message(3, vec![3]);
    s.insert_message(9, vec![9]);
    let job = process_audio_clip(&s, 3, 6).unwrap();
    assert_eq!(job.clip_id, 6);
    assert_eq!(job.audio, vec![3, 5, 5]);
}

#[test]
fn batch_joins_all_parts() {
    let job = process_audio_batch(&vec![vec![1, 2], vec![], vec![3]], 42);
    assert_eq!(job.clip_id, 42);
    assert_eq!(job.audio, vec![1, 2, 3]);
}

#[test]
fn assembly_steps_follow_outcomes() {
    assert_eq!(next_assembly_action(AssemblyEvent::Written(true)), AssemblyAction::Convert);
    assert_eq!(
        next_assembly_action(AssemblyEvent::Written(false)),
        AssemblyAction::Abort { keep_intermediate: false }
    );
    assert_eq!(
        next_assembly_action(AssemblyEvent::Converted(true)),
        AssemblyAction::RemoveIntermediate
    );
    assert_eq!(
        next_assembly_action(AssemblyEvent::Converted(false)),
        AssemblyAction::Abort { keep_intermediate: true }
    );
}

#[test]
fn discard_before_keeps_later_frames() {
    let mut s = FrameStore::new();
    for seq in [1, 2, 4, 5, 9] {
        s.insert_message(seq, vec![seq as u8]);
    }
    s.insert_message(2, vec![20]);
    s.discard_before(4);
    assert_eq!(s.range_lookup(0, 10), vec![vec![4], vec![5], vec![9]]);
    s.insert_message(3, vec![3]);
    assert_eq!(s.range_lookup(0, 10), vec![vec![3], vec![4], vec![5], vec![9]]);
    s.clear();
    assert_eq!(s.range_lookup(0, 10), Vec::<Vec<u8>>::new());
}
