use recorder::state::RecorderState;

/// Samples enter the session as the bit patterns of their 32-bit float
/// amplitudes; the audio front end converts at the boundary, and these
/// tests do the same.
fn bits(data: &[f32]) -> Vec<u32> {
    data.iter().map(|s| s.to_bits()).collect()
}

/// Deliver audio data to the in-progress take, as the capture feed would.
fn simulate_recording(recorder: &mut RecorderState, data: Vec<f32>) {
    recorder.feed_samples(&bits(&data));
}

#[test]
fn test_full_workflow() {
    let mut rec = RecorderState::new(44100, 1);

    // 1. Record first segment
    rec.start_recording();
    simulate_recording(&mut rec, vec![1.0, 2.0, 3.0]);
    rec.stop_recording();
    rec.approve();
    assert_eq!(rec.get_segment_count(), 1);

    // 2. Record second segment
    rec.start_recording();
    simulate_recording(&mut rec, vec![4.0, 5.0]);
    rec.stop_recording();
    rec.approve();
    assert_eq!(rec.get_segment_count(), 2);

    // 3. Test Delete
    rec.delete_segment(0); // Delete the [1,2,3] segment
    assert_eq!(rec.get_segment_count(), 1);
    assert_eq!(rec.project.segments[0].samples, bits(&[4.0, 5.0]));
}

#[test]
fn test_retry_logic() {
    let mut rec = RecorderState::new(44100, 1);

    // Setup: Add one segment [1.0]
    rec.start_recording();
    simulate_recording(&mut rec, vec![1.0]);
    rec.stop_recording();
    rec.approve();

    // Retry index 0
    rec.retry_segment(0);
    simulate_recording(&mut rec, vec![9.9]); // New data
    rec.stop_recording();
    rec.approve();

    assert_eq!(rec.project.segments[0].samples, bits(&[9.9]));
    assert_eq!(rec.get_segment_count(), 1); // Count shouldn't change
}

#[test]
fn test_insert_logic() {
    let mut rec = RecorderState::new(44100, 1);

    // add initial segment [1.0] at index 0
    rec.start_recording();
    simulate_recording(&mut rec, vec![1.0]);
    rec.stop_recording();
    rec.approve();

    // insert AFTER segment 1 (0 internally)
    rec.insert_segment(1 - 1);
    simulate_recording(&mut rec, vec![2.0]);
    rec.stop_recording();
    rec.approve();

    assert_eq!(rec.get_segment_count(), 2);
    assert_eq!(rec.project.segments[0].samples, bits(&[1.0]));
    assert_eq!(rec.project.segments[1].samples, bits(&[2.0]));
}

#[test]
fn test_reject_recording() {
    let mut rec = RecorderState::new(44100, 1);
    rec.start_recording();
    simulate_recording(&mut rec, vec![1.0, 1.0, 1.0]);
    rec.stop_recording();
    rec.reject();

    assert_eq!(rec.get_segment_count(), 0);
    assert!(rec.current.is_none());
}

#[test]
fn test_out_of_range_edits_fail() {
    let mut rec = RecorderState::new(44100, 1);
    rec.start_recording();
    simulate_recording(&mut rec, vec![1.0]);
    rec.stop_recording();
    rec.approve();

    // One segment: index 1 is out of range for every edit.
    assert!(!rec.retry_segment(1));
    assert!(!rec.insert_segment(1));
    assert!(!rec.delete_segment(1));

    // Timeline and mode are unchanged.
    assert_eq!(rec.get_segment_count(), 1);
    assert_eq!(rec.project.segments[0].samples, bits(&[1.0]));
    assert!(matches!(rec.state, recorder::state::AppState::Idle));
    assert!(rec.current.is_none());
    assert!(rec.project.editing_index.is_none());

    // On an empty timeline, nothing can be retried, inserted after,
    // or deleted.
    let mut empty = RecorderState::new(44100, 1);
    assert!(!empty.retry_segment(0));
    assert!(!empty.insert_segment(0));
    assert!(!empty.delete_segment(0));
    assert_eq!(empty.get_segment_count(), 0);
}

#[test]
fn test_stale_edit_falls_back_to_append() {
    let mut rec = RecorderState::new(44100, 1);
    for block in [vec![1.0], vec![2.0]] {
        rec.start_recording();
        simulate_recording(&mut rec, block);
        rec.stop_recording();
        rec.approve();
    }

    // A retry targets position 1, then a delete shrinks the timeline so
    // the stored index points past it: approval falls back to appending.
    assert!(rec.retry_segment(1));
    simulate_recording(&mut rec, vec![9.0]);
    rec.stop_recording();
    assert!(rec.delete_segment(1));
    rec.approve();

    assert_eq!(rec.get_segment_count(), 2);
    assert_eq!(rec.project.segments[0].samples, bits(&[1.0]));
    assert_eq!(rec.project.segments[1].samples, bits(&[9.0]));
}

#[test]
fn test_feed_ignored_unless_recording() {
    let mut rec = RecorderState::new(44100, 1);

    // While Idle there is no take: the block is dropped.
    simulate_recording(&mut rec, vec![1.0]);
    assert!(rec.current.is_none());

    // While Reviewing the take is frozen: the block is dropped too.
    rec.start_recording();
    simulate_recording(&mut rec, vec![2.0]);
    rec.stop_recording();
    simulate_recording(&mut rec, vec![3.0]);
    assert_eq!(rec.current.as_ref().unwrap().samples, bits(&[2.0]));
}

#[test]
fn test_stop_without_recording_is_noop() {
    let mut rec = RecorderState::new(44100, 1);
    rec.stop_recording();
    assert!(matches!(rec.state, recorder::state::AppState::Idle));
    assert!(rec.current.is_none());
}

#[test]
fn test_approve_without_take() {
    let mut rec = RecorderState::new(44100, 1);
    rec.approve();
    assert_eq!(rec.get_segment_count(), 0);
    assert!(rec.current.is_none());
    assert!(matches!(rec.state, recorder::state::AppState::Idle));
}

#[test]
fn test_multiple_blocks_concatenate_in_order() {
    let mut rec = RecorderState::new(44100, 1);
    rec.start_recording();
    simulate_recording(&mut rec, vec![1.0, 2.0]);
    simulate_recording(&mut rec, vec![3.0]);
    simulate_recording(&mut rec, vec![4.0, 5.0]);
    rec.stop_recording();
    rec.approve();

    assert_eq!(rec.get_segment_count(), 1);
    assert_eq!(
        rec.project.segments[0].samples,
        bits(&[1.0, 2.0, 3.0, 4.0, 5.0])
    );
}

#[test]
fn test_flattened_samples_empty() {
    let rec = RecorderState::new(44100, 1);
    assert!(rec.project.flattened_samples().is_empty());
}

#[test]
fn test_flattened_samples_order() {
    let mut rec = RecorderState::new(48000, 1);
    for block in [vec![1.0, 2.0], vec![3.0], vec![4.0, 5.0]] {
        rec.start_recording();
        simulate_recording(&mut rec, block);
        rec.stop_recording();
        rec.approve();
    }
    assert_eq!(
        rec.project.flattened_samples(),
        bits(&[1.0, 2.0, 3.0, 4.0, 5.0])
    );
}

#[test]
fn test_total_samples_count() {
    let mut rec = RecorderState::new(48000, 1);
    assert_eq!(rec.project.total_samples(), 0);
    for block in [vec![1.0, 2.0, 3.0], vec![4.0, 5.0]] {
        rec.start_recording();
        simulate_recording(&mut rec, block);
        rec.stop_recording();
        rec.approve();
    }
    assert_eq!(rec.project.total_samples(), 5);
    assert_eq!(rec.total_samples(), 5);
}

#[test]
fn test_get_segment_bounds() {
    let mut rec = RecorderState::new(44100, 1);
    rec.start_recording();
    simulate_recording(&mut rec, vec![7.0]);
    rec.stop_recording();
    rec.approve();

    let seg = rec.get_segment(0).expect("segment 0 exists");
    assert_eq!(seg.samples, bits(&[7.0]));
    assert_eq!(seg.sample_count(), 1);
    assert!(rec.get_segment(1).is_none());
}

#[test]
fn test_clone_is_independent_snapshot() {
    let mut rec = RecorderState::new(44100, 1);
    rec.start_recording();
    simulate_recording(&mut rec, vec![1.0, 2.0]);
    rec.stop_recording();
    rec.approve();

    let snapshot = rec.get_segment(0).unwrap().clone();
    rec.retry_segment(0);
    simulate_recording(&mut rec, vec![9.0]);
    rec.stop_recording();
    rec.approve();

    assert_eq!(snapshot.samples, bits(&[1.0, 2.0]));
    assert_eq!(rec.project.segments[0].samples, bits(&[9.0]));
}
