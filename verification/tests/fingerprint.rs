use kerr_spacetime::simulation::{
    FieldState, Fnv, ObserverState, PulseState, RayState, ReceptionState, RunState,
};

#[test]
fn fnv_of_eight_zero_bytes_is_the_published_value() {
    let mut h = Fnv::new();
    assert_eq!(h.0, 0xcbf2_9ce4_8422_2325);
    h.bits(0);
    assert_eq!(h.0, 0xa8c7_f832_281a_39c5);
}

#[test]
fn fnv_feeds_words_little_endian() {
    let mut h = Fnv::new();
    h.bits(1);
    assert_eq!(h.0, 0x89cd_3129_1d2a_efa4);
    let mut g = Fnv::new();
    g.bits(0x0123_4567_89ab_cdef);
    assert_eq!(g.0, 0x37eb_3f33_4776_1c55);
}

#[test]
fn a_double_goes_in_as_its_bits() {
    let mut a = Fnv::new();
    a.double(2.5f64.to_bits());
    let mut b = Fnv::new();
    b.bits(0x4004_0000_0000_0000);
    assert_eq!(a.0, b.0);
}

#[test]
fn an_optional_number_is_tagged() {
    let mut none = Fnv::new();
    none.maybe(None);
    let mut zero = Fnv::new();
    zero.bits(0);
    assert_eq!(none.0, zero.0);

    let mut some = Fnv::new();
    some.maybe(Some(2.5f64.to_bits()));
    assert_eq!(some.0, 0x3914_b1f1_4ddf_2c40);
    assert_ne!(some.0, none.0);
}

fn ray(r: f64, phi: f64, dr_dt: f64, dphi_dt: f64, death_t: Option<f64>) -> RayState {
    RayState {
        t: 1.5f64.to_bits(),
        r: r.to_bits(),
        phi: phi.to_bits(),
        dr_dt: dr_dt.to_bits(),
        dphi_dt: dphi_dt.to_bits(),
        death_t: death_t.map(f64::to_bits),
        died_at_boundary: death_t.is_some(),
        inside_ring: false,
        off_clock: false,
    }
}

fn small_run(death_t: Option<f64>) -> RunState {
    RunState {
        clock: 1.5f64.to_bits(),
        alice: Some(ObserverState {
            t: 1.0f64.to_bits(),
            r: 6.0f64.to_bits(),
            phi: 0.0f64.to_bits(),
            tau: 0.5f64.to_bits(),
        }),
        bob: None,
        alice_signal: FieldState {
            t: 1.5f64.to_bits(),
            off_clock: false,
            max_pulses: 4,
            next_index: 4,
            pulses: vec![PulseState {
                index: 3,
                rays: vec![ray(5.0, 0.25, -1.0, 0.1, death_t)],
                role_rays: vec![Some(0), None],
            }],
            receptions: vec![ReceptionState {
                t: 1.25f64.to_bits(),
                r: 4.5f64.to_bits(),
                ratio: 0.75f64.to_bits(),
            }],
        },
        bob_signal: FieldState {
            t: 1.5f64.to_bits(),
            off_clock: false,
            max_pulses: 4,
            next_index: 0,
            pulses: vec![],
            receptions: vec![],
        },
    }
}

#[test]
fn fingerprint_of_a_small_run() {
    assert_eq!(small_run(None).fingerprint(), 0x0d82_2c80_1e02_c4c8);
}

#[test]
fn a_ray_that_has_died_changes_the_fingerprint() {
    let alive = small_run(None).fingerprint();
    let dead = small_run(Some(2.0)).fingerprint();
    assert_eq!(dead, 0xece4_dbdc_d486_1729);
    assert_ne!(alive, dead);
}

#[test]
fn the_last_bit_of_a_radius_moves_the_fingerprint() {
    let base = small_run(None);
    let mut nudged = base.clone();
    if let Some(a) = nudged.alice.as_mut() {
        a.r ^= 1;
    }
    assert_ne!(base.fingerprint(), nudged.fingerprint());
}
