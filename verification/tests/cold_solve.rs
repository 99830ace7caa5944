use kerr_spacetime::as_seen::{ColdSolve, ColdStep, NoImage, MAX_COLD_SEEDS};

#[test]
fn a_cold_solve_starts_at_the_first_dip() {
    let (state, step) = ColdSolve::new();
    assert_eq!(step, ColdStep::Seed(0));
    assert_eq!(state.refusal, NoImage::NoCrossing);
}

#[test]
fn a_first_dip_that_cannot_be_had_is_reported_as_such() {
    let (mut state, _) = ColdSolve::new();
    assert_eq!(state.seed_failed(NoImage::RaysDied), ColdStep::Refused(NoImage::RaysDied));
    let (mut state, _) = ColdSolve::new();
    assert_eq!(state.seed_failed(NoImage::NoCrossing), ColdStep::Refused(NoImage::NoCrossing));
}

#[test]
fn running_out_of_dips_keeps_the_last_refinement_failure() {
    let (mut state, _) = ColdSolve::new();
    assert_eq!(state.refine_failed(NoImage::NotConverged), ColdStep::Seed(1));
    assert_eq!(state.seed_failed(NoImage::NoCrossing), ColdStep::Refused(NoImage::NotConverged));
}

#[test]
fn any_other_sweep_failure_replaces_it() {
    let (mut state, _) = ColdSolve::new();
    assert_eq!(state.refine_failed(NoImage::NotConverged), ColdStep::Seed(1));
    assert_eq!(state.seed_failed(NoImage::TrailEvicted), ColdStep::Refused(NoImage::TrailEvicted));
}

#[test]
fn a_cold_solve_gives_up_after_its_last_dip() {
    let (mut state, mut step) = ColdSolve::new();
    let mut asked = 0;
    while let ColdStep::Seed(skip) = step {
        assert_eq!(skip, asked);
        asked += 1;
        step = state.refine_failed(NoImage::OtherEnded);
    }
    assert_eq!(asked, MAX_COLD_SEEDS);
    assert_eq!(step, ColdStep::Refused(NoImage::OtherEnded));
}
