use kerr_spacetime::trail::{Trail, TRAIL_MAX_DRAG_POINTS, TRAIL_MAX_POINTS};

fn contents(trail: &Trail<u32>) -> Vec<u32> {
    (0..trail.len()).map(|i| *trail.get(i)).collect()
}

#[test]
fn a_new_trail_holds_its_start() {
    let trail = Trail::new(7u32);
    assert_eq!(contents(&trail), vec![7]);
    assert_eq!(*trail.front(), 7);
    assert_eq!(*trail.back(), 7);
}

#[test]
fn recording_keeps_order_and_evicts_past_the_cap() {
    let mut trail = Trail::new(0u32);
    for k in 1..=5 {
        trail.record(k, 3);
    }
    // The cap is passed once the trail holds more than 3, and one entry goes per record.
    assert_eq!(contents(&trail), vec![2, 3, 4, 5]);
    assert_eq!(*trail.back(), 5);
    trail.record(6, 3);
    assert_eq!(contents(&trail), vec![3, 4, 5, 6]);
}

#[test]
fn a_long_run_is_held_to_the_cap_plus_the_current_event() {
    let mut trail = Trail::new(0u32);
    for k in 1..3000u32 {
        trail.record(k, TRAIL_MAX_POINTS);
    }
    assert_eq!(trail.len(), TRAIL_MAX_POINTS + 1);
    assert_eq!(*trail.back(), 2999);
    for k in 3000..3010u32 {
        trail.record(k, TRAIL_MAX_DRAG_POINTS);
    }
    assert_eq!(trail.len(), TRAIL_MAX_POINTS + 1);
    assert_eq!(*trail.front(), 2999 - TRAIL_MAX_POINTS as u32 + 10);
}

#[test]
fn holding_and_restarting() {
    let mut trail = Trail::new(1u32);
    trail.record(2, 10);
    trail.record(3, 10);
    trail.hold(1, 9);
    assert_eq!(contents(&trail), vec![1, 9]);
    trail.restart(4);
    assert_eq!(contents(&trail), vec![4]);
}

#[test]
fn the_partition_point_is_the_length_of_the_prefix() {
    let mut trail = Trail::new(10u32);
    for t in [20, 30, 40, 50] {
        trail.record(t, 100);
    }
    assert_eq!(trail.partition_point(&|t: &u32| *t <= 30), 3);
    assert_eq!(trail.partition_point(&|t: &u32| *t <= 5), 0);
    assert_eq!(trail.partition_point(&|t: &u32| *t <= 50), 5);
}

#[test]
fn a_rewind_keeps_the_events_up_to_the_target() {
    let mut trail = Trail::new(10u32);
    for t in [20, 30, 40, 50] {
        trail.record(t, 100);
    }
    assert_eq!(trail.rewind(&|t: &u32| *t <= 35), 3);
    assert_eq!(contents(&trail), vec![10, 20, 30]);
    assert_eq!(*trail.back(), 30);
}

#[test]
fn a_rewind_past_the_oldest_event_lands_on_it() {
    let mut trail = Trail::new(10u32);
    for t in [20, 30] {
        trail.record(t, 100);
    }
    assert_eq!(trail.rewind(&|t: &u32| *t <= 5), 0);
    assert_eq!(contents(&trail), vec![10]);
}
