use pagewalk::progress::{ItemProgress, ProgressTracker};

#[test]
fn overall_counter_stops_at_its_total() {
    let mut tracker = ProgressTracker::new_overall(3);
    assert_eq!(tracker.total(), 3);
    assert_eq!(tracker.completed(), 0);
    assert!(tracker.inc_overall());
    assert!(tracker.inc_overall());
    assert_eq!(tracker.completed(), 2);
    assert!(tracker.inc_overall());
    assert_eq!(tracker.completed(), 3);
    assert!(!tracker.inc_overall());
    assert_eq!(tracker.completed(), 3);
}

#[test]
fn an_empty_run_never_counts() {
    let mut tracker = ProgressTracker::new_overall(0);
    assert!(!tracker.inc_overall());
    assert_eq!(tracker.completed(), 0);
}

#[test]
fn sub_counters_get_handles_in_order() {
    let mut tracker = ProgressTracker::new_overall(2);
    assert_eq!(tracker.item_count(), 0);
    assert_eq!(tracker.new_item(String::from("first"), 100), 0);
    assert_eq!(tracker.new_item(String::from("second"), 7), 1);
    assert_eq!(tracker.item_count(), 2);
    assert_eq!(
        tracker.item(1),
        Some(&ItemProgress {
            label: String::from("second"),
            length: 7,
            position: 0,
            finished: false,
            message: None,
        })
    );
    assert_eq!(tracker.item(2), None);
}

#[test]
fn sub_counter_adds_units() {
    let mut tracker = ProgressTracker::new_overall(1);
    let handle = tracker.new_item(String::from("song"), 100);
    assert!(tracker.inc_item(handle, 5));
    assert!(tracker.inc_item(handle, 5));
    assert_eq!(tracker.item(handle).unwrap().position, 10);
    assert!(tracker.inc_item(handle, 0));
    assert_eq!(tracker.item(handle).unwrap().position, 10);
}

#[test]
fn sub_counter_stops_at_the_largest_value() {
    let mut tracker = ProgressTracker::new_overall(1);
    let handle = tracker.new_item(String::from("song"), 100);
    assert!(tracker.inc_item(handle, u64::MAX - 1));
    assert!(tracker.inc_item(handle, 5));
    assert_eq!(tracker.item(handle).unwrap().position, u64::MAX);
}

#[test]
fn finished_sub_counter_no_longer_moves() {
    let mut tracker = ProgressTracker::new_overall(1);
    let handle = tracker.new_item(String::from("song"), 100);
    assert!(tracker.inc_item(handle, 5));
    assert!(tracker.finish_item(handle, String::from("done")));
    assert!(!tracker.inc_item(handle, 5));
    assert!(!tracker.finish_item(handle, String::from("again")));
    let item = tracker.item(handle).unwrap();
    assert_eq!(item.position, 5);
    assert!(item.finished);
    assert_eq!(item.message, Some(String::from("done")));
    assert_eq!(item.label, String::from("song"));
    assert_eq!(item.length, 100);
}

#[test]
fn unknown_handle_changes_nothing() {
    let mut tracker = ProgressTracker::new_overall(1);
    let before = tracker.clone();
    assert!(!tracker.inc_item(0, 5));
    assert!(!tracker.finish_item(4, String::from("done")));
    assert_eq!(tracker, before);
}
