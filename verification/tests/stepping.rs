use kerr_spacetime::as_seen::{worldline_source, NoImage, Reading, WorldlineSource};
use kerr_spacetime::observer::{
    advance_kind, plan_rewind, plan_step, Advance, ObserverMode, Rewind, Step,
};

#[test]
fn a_step_before_the_release_hovers() {
    assert_eq!(plan_step(true, false, ObserverMode::FreeFall, false, true), (Step::Hover, false));
    assert_eq!(plan_step(true, true, ObserverMode::Static, false, true), (Step::Hover, false));
}

#[test]
fn the_step_that_crosses_the_release_starts_from_it() {
    let (step, active) = plan_step(false, false, ObserverMode::FreeFall, false, true);
    assert!(active);
    assert_eq!(step, Step::Advance { advance: Advance::Integrated, from_release: true });
    let (next, _) = plan_step(false, active, ObserverMode::FreeFall, false, true);
    assert_eq!(next, Step::Advance { advance: Advance::Integrated, from_release: false });
}

#[test]
fn other_modes_cover_the_whole_step_at_release() {
    let (step, _) = plan_step(false, false, ObserverMode::Static, false, true);
    assert_eq!(step, Step::Advance { advance: Advance::FixedRadius, from_release: false });
    let (step, _) = plan_step(false, false, ObserverMode::ManualDrag, false, true);
    assert_eq!(step, Step::Advance { advance: Advance::ClockOnly, from_release: false });
}

#[test]
fn a_free_fall_advances_by_its_state() {
    assert_eq!(advance_kind(ObserverMode::FreeFall, true, true), Advance::Carried);
    assert_eq!(advance_kind(ObserverMode::FreeFall, false, true), Advance::Integrated);
    assert_eq!(advance_kind(ObserverMode::FreeFall, false, false), Advance::Stopped);
    assert_eq!(advance_kind(ObserverMode::Zamo, false, true), Advance::FixedRadius);
}

#[test]
fn a_rewind_takes_the_same_case_split() {
    assert_eq!(plan_rewind(true, false, true, ObserverMode::FreeFall), (Rewind::Stay, true));
    assert_eq!(plan_rewind(true, true, false, ObserverMode::FreeFall), (Rewind::Stay, false));
    assert_eq!(plan_rewind(false, true, true, ObserverMode::FreeFall), (Rewind::IntoHover, false));
    assert_eq!(plan_rewind(false, false, false, ObserverMode::FreeFall), (Rewind::AlongTrail, true));
    assert_eq!(plan_rewind(false, false, true, ObserverMode::Static), (Rewind::FixedRadius, true));
    assert_eq!(plan_rewind(false, false, true, ObserverMode::Zamo), (Rewind::FixedRadius, true));
    assert_eq!(plan_rewind(false, false, true, ObserverMode::ManualDrag), (Rewind::ClockOnly, true));
}

const AFTER_RELEASE: Reading = Reading {
    before_release: false,
    backwards_geodesic: false,
    past_the_clock: false,
    before_trail: false,
};

#[test]
fn before_the_release_the_hold_or_the_backwards_geodesic_answers() {
    let before = Reading { before_release: true, ..AFTER_RELEASE };
    assert_eq!(worldline_source(ObserverMode::FreeFall, before), Ok(WorldlineSource::Hold));
    let moving = Reading { backwards_geodesic: true, ..before };
    assert_eq!(worldline_source(ObserverMode::FreeFall, moving), Ok(WorldlineSource::Geodesic));
    assert_eq!(worldline_source(ObserverMode::Static, moving), Ok(WorldlineSource::Hold));
}

#[test]
fn after_the_release_the_source_follows_the_mode() {
    assert_eq!(worldline_source(ObserverMode::FreeFall, AFTER_RELEASE), Ok(WorldlineSource::Trail));
    assert_eq!(worldline_source(ObserverMode::Zamo, AFTER_RELEASE), Ok(WorldlineSource::FixedRadius));
    assert_eq!(
        worldline_source(ObserverMode::ManualDrag, AFTER_RELEASE),
        Ok(WorldlineSource::Dragged)
    );
}

#[test]
fn nothing_is_read_past_the_clock_or_before_the_trail() {
    let late = Reading { past_the_clock: true, ..AFTER_RELEASE };
    assert_eq!(worldline_source(ObserverMode::Static, late), Err(NoImage::OtherEnded));
    let evicted = Reading { before_trail: true, ..AFTER_RELEASE };
    assert_eq!(worldline_source(ObserverMode::FreeFall, evicted), Err(NoImage::TrailEvicted));
    assert_eq!(worldline_source(ObserverMode::Static, evicted), Ok(WorldlineSource::FixedRadius));
}
