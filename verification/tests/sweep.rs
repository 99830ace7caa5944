use kerr_spacetime::as_seen::{
    cold_candidate, Candidate, NoImage, PassEnd, SweepEnd, SweepTally,
};

#[test]
fn a_sweep_ends_once_it_has_every_dip_it_wants() {
    let mut tally = SweepTally::new(2);
    tally.probe_answered();
    assert!(!tally.dip_found());
    assert!(tally.dip_found());
    assert_eq!(tally.finish(true), Ok(SweepEnd { keep_closest: false, refusal: NoImage::NoCrossing }));
}

#[test]
fn a_sweep_whose_rays_all_die_before_a_dip_refuses() {
    let mut tally = SweepTally::new(1);
    tally.probe_answered();
    assert_eq!(tally.end_pass(true, false), PassEnd::Continue);
    assert_eq!(tally.end_pass(false, false), PassEnd::Refuse(NoImage::RaysDied));
}

#[test]
fn a_sweep_with_dips_stops_when_its_rays_die() {
    let mut tally = SweepTally::new(3);
    tally.probe_answered();
    tally.dip_found();
    assert_eq!(tally.end_pass(false, false), PassEnd::Stop);
    assert_eq!(tally.finish(false), Ok(SweepEnd { keep_closest: false, refusal: NoImage::NoCrossing }));
}

#[test]
fn an_evicted_trail_stops_the_sweep_and_is_the_refusal() {
    let mut tally = SweepTally::new(1);
    tally.probe_failed(NoImage::TrailEvicted);
    assert_eq!(tally.end_pass(true, false), PassEnd::Stop);
    assert_eq!(tally.finish(false), Err(NoImage::TrailEvicted));
}

#[test]
fn a_pass_that_probes_forgets_the_earlier_reason() {
    let mut tally = SweepTally::new(1);
    tally.probe_failed(NoImage::OtherEnded);
    assert_eq!(tally.end_pass(true, false), PassEnd::Continue);
    assert_eq!(tally.refusal, Some(NoImage::OtherEnded));
    tally.probe_failed(NoImage::OtherEnded);
    tally.probe_answered();
    assert_eq!(tally.end_pass(true, true), PassEnd::Stop);
    assert_eq!(tally.refusal, None);
    assert_eq!(tally.finish(false), Err(NoImage::NoCrossing));
    assert_eq!(tally.finish(true), Ok(SweepEnd { keep_closest: true, refusal: NoImage::NoCrossing }));
}

#[test]
fn only_the_first_candidate_falls_back_to_the_closest_approach() {
    assert_eq!(cold_candidate(0, 0, true, NoImage::NoCrossing), Candidate::Closest);
    assert_eq!(cold_candidate(1, 0, true, NoImage::NoCrossing), Candidate::Refused(NoImage::NoCrossing));
    assert_eq!(cold_candidate(0, 2, true, NoImage::NoCrossing), Candidate::Dip(0));
    assert_eq!(cold_candidate(1, 2, true, NoImage::NoCrossing), Candidate::Dip(1));
    assert_eq!(cold_candidate(2, 2, true, NoImage::RaysDied), Candidate::Refused(NoImage::RaysDied));
    assert_eq!(cold_candidate(0, 0, false, NoImage::OtherEnded), Candidate::Refused(NoImage::OtherEnded));
}
