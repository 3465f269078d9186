use sprinkles_editor::seekbar::{
    primary_emitters, runtime_counts_toward_elapsed, sub_emitter_targets, SeekbarDragState,
};

#[test]
fn drag_takes_over_elapsed_time() {
    let mut s = SeekbarDragState::idle(0.0f32);
    assert_eq!(s.displayed_elapsed(1.5), 1.5);
    assert!(s.fill_follows_playback());
    assert!(!s.follows_pointer());
    s.start_drag();
    assert!(s.follows_pointer());
    s.seek_to(0.25);
    assert_eq!(s.displayed_elapsed(1.5), 0.25);
    assert!(!s.fill_follows_playback());
    s.end_drag();
    assert_eq!(s.displayed_elapsed(1.5), 1.5);
    assert_eq!(s.drag_time, 0.25);
}

#[test]
fn sub_emitter_targets_are_collected() {
    let targets = sub_emitter_targets(&vec![Some(2), None, Some(1), None]);
    assert_eq!(targets, vec![2, 1]);
    assert_eq!(primary_emitters(4, &targets), vec![0, 3]);
    assert_eq!(primary_emitters(0, &targets), Vec::<usize>::new());
}

#[test]
fn runtimes_that_count() {
    let targets = vec![2];
    assert!(runtime_counts_toward_elapsed(7, 7, 0, &targets));
    assert!(!runtime_counts_toward_elapsed(7, 7, 2, &targets));
    assert!(!runtime_counts_toward_elapsed(8, 7, 0, &targets));
}
