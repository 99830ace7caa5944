use kerr_spacetime::observer::{LocalFrames, LocalRestFrame, ObserverMode, Release};

const OUTSIDE_STATIC_LIMIT: LocalFrames = LocalFrames { static_exists: true, zamo_exists: true };
const ERGOSPHERE: LocalFrames = LocalFrames { static_exists: false, zamo_exists: true };
const BETWEEN_HORIZONS: LocalFrames = LocalFrames { static_exists: false, zamo_exists: false };

#[test]
fn circular_sense_names_the_two_orbits_and_nothing_else() {
    assert_eq!(Release::CircularPrograde.circular_sense(), Some(true));
    assert_eq!(Release::CircularRetrograde.circular_sense(), Some(false));
    assert_eq!(Release::AtRest.circular_sense(), None);
    assert_eq!(Release::FromInfinity.circular_sense(), None);
}

#[test]
fn free_fall_and_drag_exist_everywhere() {
    for frames in [OUTSIDE_STATIC_LIMIT, ERGOSPHERE, BETWEEN_HORIZONS] {
        assert!(ObserverMode::FreeFall.mode_admissible(frames));
        assert!(ObserverMode::ManualDrag.mode_admissible(frames));
        assert_eq!(ObserverMode::FreeFall.effective_mode(frames), ObserverMode::FreeFall);
        assert_eq!(ObserverMode::ManualDrag.effective_mode(frames), ObserverMode::ManualDrag);
    }
}

#[test]
fn inadmissible_modes_fall_back_to_free_fall() {
    // Inside the static limit there is no static observer, so a Static selection falls.
    assert!(!ObserverMode::Static.mode_admissible(ERGOSPHERE));
    assert_eq!(ObserverMode::Static.effective_mode(ERGOSPHERE), ObserverMode::FreeFall);
    // ... but a ZAMO in the ergosphere is fine.
    assert!(ObserverMode::Zamo.mode_admissible(ERGOSPHERE));
    assert_eq!(ObserverMode::Zamo.effective_mode(ERGOSPHERE), ObserverMode::Zamo);
    // Between the horizons nothing can hover.
    assert!(!ObserverMode::Zamo.mode_admissible(BETWEEN_HORIZONS));
    assert_eq!(ObserverMode::Zamo.effective_mode(BETWEEN_HORIZONS), ObserverMode::FreeFall);
    // Outside the static limit both selections are followed as made.
    assert_eq!(ObserverMode::Static.effective_mode(OUTSIDE_STATIC_LIMIT), ObserverMode::Static);
    assert_eq!(ObserverMode::Zamo.effective_mode(OUTSIDE_STATIC_LIMIT), ObserverMode::Zamo);
}

#[test]
fn the_effective_mode_is_settled_after_one_ask() {
    for frames in [OUTSIDE_STATIC_LIMIT, ERGOSPHERE, BETWEEN_HORIZONS] {
        for mode in [
            ObserverMode::FreeFall,
            ObserverMode::ManualDrag,
            ObserverMode::Static,
            ObserverMode::Zamo,
        ] {
            let once = mode.effective_mode(frames);
            assert!(once.mode_admissible(frames));
            assert_eq!(once.effective_mode(frames), once);
        }
    }
}

#[test]
fn a_frame_is_never_invented_where_its_observer_cannot_exist() {
    // Outside the static limit both hovering frames are quoted, and not the raindrop.
    let outside = OUTSIDE_STATIC_LIMIT.local_speeds();
    assert_eq!(outside, vec![LocalRestFrame::Static, LocalRestFrame::Zamo]);
    // In the ergosphere only the ZAMO is left.
    assert_eq!(ERGOSPHERE.local_speeds(), vec![LocalRestFrame::Zamo]);
    assert!(!ERGOSPHERE.has_frame(LocalRestFrame::Static));
    // Between the horizons only the raindrop.
    assert_eq!(BETWEEN_HORIZONS.local_speeds(), vec![LocalRestFrame::Raindrop]);
    assert!(!BETWEEN_HORIZONS.has_frame(LocalRestFrame::Zamo));
    assert!(BETWEEN_HORIZONS.has_frame(LocalRestFrame::Raindrop));
}

#[test]
fn a_static_frame_without_a_zamo_is_quoted_alone() {
    let odd = LocalFrames { static_exists: true, zamo_exists: false };
    assert_eq!(odd.local_speeds(), vec![LocalRestFrame::Static]);
}
