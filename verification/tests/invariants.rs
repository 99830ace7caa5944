use kerr_spacetime::simulation::{
    is_finite_bits, FieldState, ObserverQuantity, ObserverState, Party, PulseState, RayQuantity,
    RayState, ReceptionState, RunState, Violation,
};

fn ray() -> RayState {
    RayState {
        t: 10.0f64.to_bits(),
        r: 3.0f64.to_bits(),
        phi: 0.5f64.to_bits(),
        dr_dt: (-0.5f64).to_bits(),
        dphi_dt: 0.1f64.to_bits(),
        death_t: None,
        died_at_boundary: false,
        inside_ring: false,
        off_clock: false,
    }
}

fn field(first_index: usize) -> FieldState {
    FieldState {
        t: 10.0f64.to_bits(),
        off_clock: false,
        max_pulses: 3,
        next_index: first_index + 2,
        pulses: vec![
            PulseState { index: first_index, rays: vec![ray(), ray()], role_rays: vec![Some(1)] },
            PulseState { index: first_index + 1, rays: vec![ray()], role_rays: vec![None, Some(0)] },
        ],
        receptions: vec![ReceptionState {
            t: 9.0f64.to_bits(),
            r: 4.0f64.to_bits(),
            ratio: 0.9f64.to_bits(),
        }],
    }
}

fn observer() -> ObserverState {
    ObserverState {
        t: 10.0f64.to_bits(),
        r: 4.0f64.to_bits(),
        phi: 1.0f64.to_bits(),
        tau: 8.0f64.to_bits(),
    }
}

fn good_run() -> RunState {
    RunState {
        clock: 10.0f64.to_bits(),
        alice: Some(observer()),
        bob: Some(observer()),
        alice_signal: field(5),
        bob_signal: field(0),
    }
}

fn complaint(break_it: impl FnOnce(&mut RunState)) -> Violation {
    let mut run = good_run();
    break_it(&mut run);
    run.check_invariants().expect_err("this state must be refused")
}

#[test]
fn finiteness_is_read_off_the_exponent() {
    assert!(is_finite_bits(1.0f64.to_bits()));
    assert!(is_finite_bits(f64::MAX.to_bits()));
    assert!(is_finite_bits((-0.0f64).to_bits()));
    assert!(!is_finite_bits(f64::INFINITY.to_bits()));
    assert!(!is_finite_bits(f64::NEG_INFINITY.to_bits()));
    assert!(!is_finite_bits(f64::NAN.to_bits()));
}

#[test]
fn a_consistent_run_passes() {
    assert_eq!(good_run().check_invariants(), Ok(()));
    let mut empty = good_run();
    empty.alice = None;
    empty.bob_signal.pulses.clear();
    assert_eq!(empty.check_invariants(), Ok(()));
}

#[test]
fn check_invariants_refuses_states_the_physics_cannot_reach() {
    assert_eq!(complaint(|run| run.clock = f64::NAN.to_bits()), Violation::ClockNotFinite);
    assert_eq!(
        complaint(|run| run.alice.as_mut().unwrap().r = f64::INFINITY.to_bits()),
        Violation::ObserverNotFinite { observer: Party::Alice, quantity: ObserverQuantity::R }
    );
    assert_eq!(
        complaint(|run| run.bob.as_mut().unwrap().tau = f64::NAN.to_bits()),
        Violation::ObserverNotFinite { observer: Party::Bob, quantity: ObserverQuantity::Tau }
    );
    assert_eq!(
        complaint(|run| run.bob_signal.t = f64::NAN.to_bits()),
        Violation::FieldNotFinite { field: Party::Bob }
    );
    assert_eq!(
        complaint(|run| run.alice_signal.off_clock = true),
        Violation::FieldOffClock { field: Party::Alice }
    );
    assert_eq!(
        complaint(|run| run.alice_signal.max_pulses = 1),
        Violation::OverCap { field: Party::Alice, held: 2, cap: 1 }
    );
    assert_eq!(
        complaint(|run| run.alice_signal.pulses.swap(0, 1)),
        Violation::OutOfOrder { field: Party::Alice, index: 5, after: 6 }
    );
    assert_eq!(
        complaint(|run| run.alice_signal.next_index = 0),
        Violation::NotYetIssued { field: Party::Alice, index: 5, next: 0 }
    );
    assert_eq!(
        complaint(|run| run.bob_signal.pulses[1].role_rays[1] = Some(4)),
        Violation::RoleOutOfRange { field: Party::Bob, index: 1, role: 4, rays: 1 }
    );
    assert_eq!(
        complaint(|run| run.alice_signal.pulses[0].rays[1].dphi_dt = f64::NAN.to_bits()),
        Violation::RayNotFinite {
            field: Party::Alice,
            index: 5,
            ray: 1,
            component: RayQuantity::DphiDt
        }
    );
    assert_eq!(
        complaint(|run| run.alice_signal.pulses[0].rays[0].inside_ring = true),
        Violation::RayInsideRing { field: Party::Alice, index: 5, ray: 0 }
    );
    assert_eq!(
        complaint(|run| run.alice_signal.pulses[1].rays[0].off_clock = true),
        Violation::RayOffClock { field: Party::Alice, index: 6, ray: 0 }
    );
    assert_eq!(
        complaint(|run| run.alice_signal.pulses[0].rays[0].died_at_boundary = true),
        Violation::DeathMismatch { field: Party::Alice, index: 5, ray: 0 }
    );
    assert_eq!(
        complaint(|run| {
            let r = &mut run.alice_signal.pulses[0].rays[0];
            r.death_t = Some(f64::INFINITY.to_bits());
            r.died_at_boundary = true;
        }),
        Violation::DeathNotFinite { field: Party::Alice, index: 5, ray: 0 }
    );
}

#[test]
fn a_cap_of_zero_is_held_to_one() {
    let mut run = good_run();
    run.alice_signal.max_pulses = 0;
    run.alice_signal.pulses.truncate(1);
    assert_eq!(run.check_invariants(), Ok(()));
}

#[test]
fn the_first_thing_wrong_is_the_one_reported() {
    let refusal = complaint(|run| {
        run.bob.as_mut().unwrap().t = f64::NAN.to_bits();
        run.alice_signal.next_index = 0;
    });
    assert_eq!(
        refusal,
        Violation::ObserverNotFinite { observer: Party::Bob, quantity: ObserverQuantity::T }
    );
    let refusal = complaint(|run| {
        run.alice_signal.pulses[1].rays[0].inside_ring = true;
        run.alice_signal.pulses[0].rays[1].off_clock = true;
    });
    assert_eq!(refusal, Violation::RayOffClock { field: Party::Alice, index: 5, ray: 1 });
}
