//! The run, as plain values: what a step is told about the panel, the state a run is fingerprinted
//! by, and the invariants every reachable state satisfies.
//!
//! A run's numbers are double-precision floats. The library holds each one as its IEEE-754
//! binary64 bit pattern (its `to_bits`), which is all the fingerprint reads and all
//! the finiteness checks need. The two comparisons the invariants make between floats - a clock
//! within 1e-9 M of another, a radius inside the ring - are made by the caller, who holds the
//! floats, and handed in as flags; everything else is decided here.
use vstd::prelude::*;

verus! {

/// What the panel has to say about the step that is about to be taken: how finely the next
/// emission samples the emitter's light cone, and which of the two is broadcasting at all.
#[derive(Debug, Clone, Copy, PartialEq, Eq, Structural)]
pub struct Transmit {
    pub rays_per_pulse: usize,
    /// Whether Alice is broadcasting. Her transmission is the one Bob receives.
    pub alice: bool,
    /// Whether Bob is broadcasting.
    pub bob: bool,
}

// ------------------------------------------------------------------------------------------------
// The hash.
// ------------------------------------------------------------------------------------------------

/// The FNV-1a 64-bit offset basis.
pub const FNV_OFFSET: u64 = 0xcbf2_9ce4_8422_2325;

/// The FNV-1a 64-bit prime.
pub const FNV_PRIME: u64 = 0x0000_0100_0000_01b3;

/// Byte `i` (0 = least significant) of a word: the i-th entry of its little-endian bytes.
pub open spec fn le_byte(word: u64, i: int) -> u64 {
    (word >> ((8 * i) as u64)) & 0xff
}

/// One FNV-1a round: xor the byte in, then multiply by the prime modulo 2^64.
pub open spec fn fnv_byte(h: u64, byte: u64) -> u64 {
    (((h ^ byte) as nat * FNV_PRIME as nat) % 0x1_0000_0000_0000_0000nat) as u64
}

/// FNV-1a over the first `n` little-endian bytes of `word`.
pub open spec fn fnv_bytes(h: u64, word: u64, n: nat) -> u64
    decreases n,
{
    if n == 0 {
        h
    } else {
        fnv_byte(fnv_bytes(h, word, (n - 1) as nat), le_byte(word, n - 1))
    }
}

/// FNV-1a over all eight little-endian bytes of `word`.
pub open spec fn fnv_word(h: u64, word: u64) -> u64 {
    fnv_bytes(h, word, 8)
}

/// FNV-1a over a sequence of words, each fed as its eight little-endian bytes, in order.
pub open spec fn fnv_words(h: u64, words: Seq<u64>) -> u64
    decreases words.len(),
{
    if words.len() == 0 {
        h
    } else {
        fnv_word(fnv_words(h, words.drop_last()), words.last())
    }
}

/// The words an optional number is fed as: a present/absent tag, then its bits if present.
pub open spec fn maybe_words(value: Option<u64>) -> Seq<u64> {
    match value {
        Some(v) => seq![1u64, v],
        None => seq![0u64],
    }
}

/// Feeding one word more is one more `fnv_word`.
pub proof fn lemma_fnv_words_push(h: u64, words: Seq<u64>, word: u64)
    ensures
        fnv_words(h, words.push(word)) == fnv_word(fnv_words(h, words), word),
{
    assert(words.push(word).drop_last() =~= words);
}

/// Hashing two runs of words one after the other is hashing their concatenation.
pub proof fn lemma_fnv_words_append(h: u64, a: Seq<u64>, b: Seq<u64>)
    ensures
        fnv_words(fnv_words(h, a), b) == fnv_words(h, a + b),
    decreases b.len(),
{
    if b.len() == 0 {
        assert(a + b =~= a);
    } else {
        lemma_fnv_words_append(h, a, b.drop_last());
        assert((a + b).drop_last() =~= a + b.drop_last());
        assert((a + b).last() == b.last());
    }
}

/// A 64-bit FNV-1a over the bit patterns of whatever it is fed. The state is the running hash.
pub struct Fnv(pub u64);

impl Fnv {
    /// A hasher that has been fed nothing: the offset basis.
    pub fn new() -> (h: Self)
        ensures
            h.0 == FNV_OFFSET,
    {
        Fnv(0xcbf2_9ce4_8422_2325)
    }

    /// Feed one 64-bit word, as its eight little-endian bytes.
    pub fn bits(&mut self, value: u64)
        ensures
            final(self).0 == fnv_word(old(self).0, value),
    {
        let mut i: u64 = 0;
        while i < 8
            invariant
                0 <= i <= 8,
                self.0 == fnv_bytes(old(self).0, value, i as nat),
            decreases 8 - i,
        {
            let byte: u64 = (value >> (8 * i)) & 0xff;
            assert(byte == le_byte(value, i as int));
            self.0 = (self.0 ^ byte).wrapping_mul(0x0000_0100_0000_01b3);
            i = i + 1;
        }
    }

    /// Feed one double, given as its bit pattern (its `to_bits`): the bits go in as bits rather
    /// than as a rounded decimal, so a change in the last bit of a number changes the hash input.
    pub fn double(&mut self, bits: u64)
        ensures
            final(self).0 == fnv_word(old(self).0, bits),
    {
        self.bits(bits);
    }

    /// Feed an optional double (given as its bit pattern) as a present/absent tag and then, if
    /// present, its bits, so that a present value and an absent one are never fed the same words.
    pub fn maybe(&mut self, value: Option<u64>)
        ensures
            final(self).0 == fnv_words(old(self).0, maybe_words(value)),
    {
        let ghost h0 = self.0;
        match value {
            Some(v) => {
                self.bits(1);
                self.double(v);
                proof {
                    lemma_fnv_words_push(h0, Seq::empty(), 1u64);
                    lemma_fnv_words_push(h0, seq![1u64], v);
                    assert(Seq::<u64>::empty().push(1u64) =~= seq![1u64]);
                    assert(seq![1u64].push(v) =~= seq![1u64, v]);
                }
            },
            None => {
                self.bits(0);
                proof {
                    lemma_fnv_words_push(h0, Seq::empty(), 0u64);
                    assert(Seq::<u64>::empty().push(0u64) =~= seq![0u64]);
                }
            },
        }
    }
}

// ------------------------------------------------------------------------------------------------
// The state of a run, as plain values.
// ------------------------------------------------------------------------------------------------

/// Which of the two observers, or whose transmission, a statement is about.
#[derive(Debug, Clone, Copy, PartialEq, Eq, Structural)]
pub enum Party {
    Alice,
    Bob,
}

/// One observer's event: coordinate time, radius, azimuth and proper time, as bit patterns.
#[derive(Debug, Clone, Copy, PartialEq, Eq, Structural)]
pub struct ObserverState {
    pub t: u64,
    pub r: u64,
    pub phi: u64,
    pub tau: u64,
}

/// One ray of a pulse. The five numbers and the death time are bit patterns; the last two flags
/// are the comparisons the caller made between floats.
#[derive(Debug, Clone, Copy, PartialEq, Eq, Structural)]
pub struct RayState {
    pub t: u64,
    pub r: u64,
    pub phi: u64,
    pub dr_dt: u64,
    pub dphi_dt: u64,
    /// The coordinate time the ray left the field at, if it has.
    pub death_t: Option<u64>,
    /// Whether the ray has a recorded boundary it left the field through.
    pub died_at_boundary: bool,
    /// Whether the ray stands at a radius inside the ring (r < `R_STOP`).
    pub inside_ring: bool,
    /// Whether the ray's clock is more than 1e-9 M from its field's.
    pub off_clock: bool,
}

/// One emitted wavefront: its serial number, its rays, and the rays its roles follow (by position
/// in `rays`).
#[derive(Debug, Clone, PartialEq, Eq)]
pub struct PulseState {
    pub index: usize,
    pub rays: Vec<RayState>,
    pub role_rays: Vec<Option<usize>>,
}

/// One recorded arrival: when, where, and the frequency ratio, as bit patterns.
#[derive(Debug, Clone, Copy, PartialEq, Eq, Structural)]
pub struct ReceptionState {
    pub t: u64,
    pub r: u64,
    pub ratio: u64,
}

/// One transmission: its clock, the pulses in flight and the arrivals recorded.
#[derive(Debug, Clone, PartialEq, Eq)]
pub struct FieldState {
    /// The field's clock, as a bit pattern.
    pub t: u64,
    /// Whether the field's clock is more than 1e-9 M from the simulation clock.
    pub off_clock: bool,
    /// How many wavefronts the field keeps at once.
    pub max_pulses: usize,
    /// The serial number the next emitted pulse will get.
    pub next_index: usize,
    pub pulses: Vec<PulseState>,
    pub receptions: Vec<ReceptionState>,
}

/// Everything a run is, as plain values: the clock, the two observers, either of whom may be out
/// of the simulation, and the two transmissions.
#[derive(Debug, Clone, PartialEq, Eq)]
pub struct RunState {
    /// The simulation clock, as a bit pattern.
    pub clock: u64,
    pub alice: Option<ObserverState>,
    pub bob: Option<ObserverState>,
    /// Alice's signal pulses, which Bob receives.
    pub alice_signal: FieldState,
    /// Bob's transmission, which Alice receives.
    pub bob_signal: FieldState,
}

// ------------------------------------------------------------------------------------------------
// The fingerprint.
// ------------------------------------------------------------------------------------------------

/// The words an observer is fed as: a present/absent tag and, if present, t, r, phi and tau.
pub open spec fn observer_words(observer: Option<ObserverState>) -> Seq<u64> {
    match observer {
        Some(o) => seq![1u64, o.t, o.r, o.phi, o.tau],
        None => seq![0u64],
    }
}

/// The words a ray is fed as: r, phi, dr/dt, dphi/dt and then its death time, tagged.
pub open spec fn ray_words(ray: RayState) -> Seq<u64> {
    seq![ray.r, ray.phi, ray.dr_dt, ray.dphi_dt] + maybe_words(ray.death_t)
}

/// The words a run of rays is fed as, in order.
pub open spec fn rays_words(rays: Seq<RayState>) -> Seq<u64>
    decreases rays.len(),
{
    if rays.len() == 0 {
        Seq::empty()
    } else {
        rays_words(rays.drop_last()) + ray_words(rays.last())
    }
}

/// The words a pulse is fed as: its serial number, then its rays.
pub open spec fn pulse_words(pulse: PulseState) -> Seq<u64> {
    seq![pulse.index as u64] + rays_words(pulse.rays@)
}

/// The words a run of pulses is fed as, in order.
pub open spec fn pulses_words(pulses: Seq<PulseState>) -> Seq<u64>
    decreases pulses.len(),
{
    if pulses.len() == 0 {
        Seq::empty()
    } else {
        pulses_words(pulses.drop_last()) + pulse_words(pulses.last())
    }
}

/// The words an arrival is fed as.
pub open spec fn reception_words(reception: ReceptionState) -> Seq<u64> {
    seq![reception.t, reception.r, reception.ratio]
}

/// The words a run of arrivals is fed as, in order.
pub open spec fn receptions_words(receptions: Seq<ReceptionState>) -> Seq<u64>
    decreases receptions.len(),
{
    if receptions.len() == 0 {
        Seq::empty()
    } else {
        receptions_words(receptions.drop_last()) + reception_words(receptions.last())
    }
}

/// The words a transmission is fed as: its clock, how many pulses it holds, every pulse and every
/// arrival.
pub open spec fn field_words(field: FieldState) -> Seq<u64> {
    seq![field.t, field.pulses@.len() as u64] + pulses_words(field.pulses@) + receptions_words(
        field.receptions@,
    )
}

/// The words a run is fed as: the clock, Alice, Bob, Alice's transmission, Bob's transmission.
pub open spec fn run_words(state: RunState) -> Seq<u64> {
    seq![state.clock] + observer_words(state.alice) + observer_words(state.bob) + field_words(
        state.alice_signal,
    ) + field_words(state.bob_signal)
}

/// The fingerprint of a run: FNV-1a from the offset basis over the run's words.
pub open spec fn spec_fingerprint(state: RunState) -> u64 {
    fnv_words(FNV_OFFSET, run_words(state))
}

fn hash_observer(h: &mut Fnv, observer: &Option<ObserverState>)
    ensures
        final(h).0 == fnv_words(old(h).0, observer_words(*observer)),
{
    let ghost h0 = h.0;
    match observer {
        Some(obs) => {
            h.bits(1);
            proof { lemma_fnv_words_push(h0, seq![], 1u64); }
            h.double(obs.t);
            proof { lemma_fnv_words_push(h0, seq![1u64], obs.t); }
            h.double(obs.r);
            proof { lemma_fnv_words_push(h0, seq![1u64, obs.t], obs.r); }
            h.double(obs.phi);
            proof { lemma_fnv_words_push(h0, seq![1u64, obs.t, obs.r], obs.phi); }
            h.double(obs.tau);
            proof {
                lemma_fnv_words_push(h0, seq![1u64, obs.t, obs.r, obs.phi], obs.tau);
                assert(Seq::<u64>::empty().push(1u64) =~= seq![1u64]);
                assert(seq![1u64].push(obs.t) =~= seq![1u64, obs.t]);
                assert(seq![1u64, obs.t].push(obs.r) =~= seq![1u64, obs.t, obs.r]);
                assert(seq![1u64, obs.t, obs.r].push(obs.phi) =~= seq![1u64, obs.t, obs.r, obs.phi]);
                assert(seq![1u64, obs.t, obs.r, obs.phi].push(obs.tau) =~= seq![
                    1u64,
                    obs.t,
                    obs.r,
                    obs.phi,
                    obs.tau,
                ]);
            }
        },
        None => {
            h.bits(0);
            proof {
                lemma_fnv_words_push(h0, seq![], 0u64);
                assert(Seq::<u64>::empty().push(0u64) =~= seq![0u64]);
            }
        },
    }
}

fn hash_ray(h: &mut Fnv, ray: &RayState)
    ensures
        final(h).0 == fnv_words(old(h).0, ray_words(*ray)),
{
    let ghost h0 = h.0;
    h.double(ray.r);
    proof { lemma_fnv_words_push(h0, seq![], ray.r); }
    h.double(ray.phi);
    proof { lemma_fnv_words_push(h0, seq![ray.r], ray.phi); }
    h.double(ray.dr_dt);
    proof { lemma_fnv_words_push(h0, seq![ray.r, ray.phi], ray.dr_dt); }
    h.double(ray.dphi_dt);
    proof {
        lemma_fnv_words_push(h0, seq![ray.r, ray.phi, ray.dr_dt], ray.dphi_dt);
        assert(Seq::<u64>::empty().push(ray.r) =~= seq![ray.r]);
        assert(seq![ray.r].push(ray.phi) =~= seq![ray.r, ray.phi]);
        assert(seq![ray.r, ray.phi].push(ray.dr_dt) =~= seq![ray.r, ray.phi, ray.dr_dt]);
        assert(seq![ray.r, ray.phi, ray.dr_dt].push(ray.dphi_dt) =~= seq![
            ray.r,
            ray.phi,
            ray.dr_dt,
            ray.dphi_dt,
        ]);
    }
    h.maybe(ray.death_t);
    proof {
        lemma_fnv_words_append(
            h0,
            seq![ray.r, ray.phi, ray.dr_dt, ray.dphi_dt],
            maybe_words(ray.death_t),
        );
    }
}

fn hash_pulse(h: &mut Fnv, pulse: &PulseState)
    ensures
        final(h).0 == fnv_words(old(h).0, pulse_words(*pulse)),
{
    let ghost h0 = h.0;
    h.bits(pulse.index as u64);
    proof {
        lemma_fnv_words_push(h0, seq![], pulse.index as u64);
        assert(Seq::<u64>::empty().push(pulse.index as u64) =~= seq![pulse.index as u64]);
    }
    let ghost h1 = h.0;
    let mut i: usize = 0;
    while i < pulse.rays.len()
        invariant
            0 <= i <= pulse.rays.len(),
            h1 == fnv_words(h0, seq![pulse.index as u64]),
            h.0 == fnv_words(h1, rays_words(pulse.rays@.take(i as int))),
        decreases pulse.rays.len() - i,
    {
        hash_ray(h, &pulse.rays[i]);
        proof {
            let rays = pulse.rays@;
            assert(rays.take(i + 1).drop_last() =~= rays.take(i as int));
            assert(rays.take(i + 1).last() == rays[i as int]);
            lemma_fnv_words_append(h1, rays_words(rays.take(i as int)), ray_words(rays[i as int]));
        }
        i = i + 1;
    }
    proof {
        assert(pulse.rays@.take(pulse.rays@.len() as int) =~= pulse.rays@);
        lemma_fnv_words_append(h0, seq![pulse.index as u64], rays_words(pulse.rays@));
    }
}

fn hash_field(h: &mut Fnv, field: &FieldState)
    ensures
        final(h).0 == fnv_words(old(h).0, field_words(*field)),
{
    let ghost h0 = h.0;
    h.double(field.t);
    proof { lemma_fnv_words_push(h0, seq![], field.t); }
    h.bits(field.pulses.len() as u64);
    proof {
        lemma_fnv_words_push(h0, seq![field.t], field.pulses@.len() as u64);
        assert(Seq::<u64>::empty().push(field.t) =~= seq![field.t]);
        assert(seq![field.t].push(field.pulses@.len() as u64) =~= seq![
            field.t,
            field.pulses@.len() as u64,
        ]);
    }
    let ghost head = seq![field.t, field.pulses@.len() as u64];
    let ghost h1 = h.0;
    let mut i: usize = 0;
    while i < field.pulses.len()
        invariant
            0 <= i <= field.pulses.len(),
            h1 == fnv_words(h0, head),
            h.0 == fnv_words(h1, pulses_words(field.pulses@.take(i as int))),
        decreases field.pulses.len() - i,
    {
        hash_pulse(h, &field.pulses[i]);
        proof {
            let pulses = field.pulses@;
            assert(pulses.take(i + 1).drop_last() =~= pulses.take(i as int));
            assert(pulses.take(i + 1).last() == pulses[i as int]);
            lemma_fnv_words_append(
                h1,
                pulses_words(pulses.take(i as int)),
                pulse_words(pulses[i as int]),
            );
        }
        i = i + 1;
    }
    proof {
        assert(field.pulses@.take(field.pulses@.len() as int) =~= field.pulses@);
    }
    let ghost h2 = h.0;
    let mut j: usize = 0;
    while j < field.receptions.len()
        invariant
            0 <= j <= field.receptions.len(),
            h.0 == fnv_words(h2, receptions_words(field.receptions@.take(j as int))),
        decreases field.receptions.len() - j,
    {
        let reception = &field.receptions[j];
        let ghost before = h.0;
        h.double(reception.t);
        h.double(reception.r);
        h.double(reception.ratio);
        proof {
            let rs = field.receptions@;
            lemma_fnv_words_push(before, seq![], reception.t);
            lemma_fnv_words_push(before, seq![reception.t], reception.r);
            lemma_fnv_words_push(before, seq![reception.t, reception.r], reception.ratio);
            assert(Seq::<u64>::empty().push(reception.t) =~= seq![reception.t]);
            assert(seq![reception.t].push(reception.r) =~= seq![reception.t, reception.r]);
            assert(seq![reception.t, reception.r].push(reception.ratio) =~= seq![
                reception.t,
                reception.r,
                reception.ratio,
            ]);
            assert(rs.take(j + 1).drop_last() =~= rs.take(j as int));
            assert(rs.take(j + 1).last() == rs[j as int]);
            lemma_fnv_words_append(
                h2,
                receptions_words(rs.take(j as int)),
                reception_words(rs[j as int]),
            );
        }
        j = j + 1;
    }
    proof {
        assert(field.receptions@.take(field.receptions@.len() as int) =~= field.receptions@);
        lemma_fnv_words_append(h0, head, pulses_words(field.pulses@));
        lemma_fnv_words_append(
            h0,
            head + pulses_words(field.pulses@),
            receptions_words(field.receptions@),
        );
    }
}

impl RunState {
    /// The 64-bit state hash of a run: FNV-1a over the clock, both worldlines, every ray of both
    /// transmissions and every arrival recorded, each number fed as its bit pattern.
    pub fn fingerprint(&self) -> (h: u64)
        ensures
            h == spec_fingerprint(*self),
            h == fnv_words(FNV_OFFSET, run_fed(*self)),
    {
        proof {
            lemma_fingerprint_front_to_back(*self);
        }
        let mut h = Fnv::new();
        h.double(self.clock);
        proof {
            lemma_fnv_words_push(FNV_OFFSET, seq![], self.clock);
            assert(Seq::<u64>::empty().push(self.clock) =~= seq![self.clock]);
        }
        let ghost w0 = seq![self.clock];
        hash_observer(&mut h, &self.alice);
        proof { lemma_fnv_words_append(FNV_OFFSET, w0, observer_words(self.alice)); }
        let ghost w1 = w0 + observer_words(self.alice);
        hash_observer(&mut h, &self.bob);
        proof { lemma_fnv_words_append(FNV_OFFSET, w1, observer_words(self.bob)); }
        let ghost w2 = w1 + observer_words(self.bob);
        hash_field(&mut h, &self.alice_signal);
        proof { lemma_fnv_words_append(FNV_OFFSET, w2, field_words(self.alice_signal)); }
        let ghost w3 = w2 + field_words(self.alice_signal);
        hash_field(&mut h, &self.bob_signal);
        proof { lemma_fnv_words_append(FNV_OFFSET, w3, field_words(self.bob_signal)); }
        h.0
    }
}

// ------------------------------------------------------------------------------------------------
// The invariants.
// ------------------------------------------------------------------------------------------------

/// Whether a binary64 bit pattern is a finite number: its exponent field is not all ones (all
/// ones is an infinity or a NaN).
pub open spec fn finite_bits(bits: u64) -> bool {
    (bits >> 52u64) & 0x7ff != 0x7ff
}

/// Whether the double with this bit pattern is finite.
pub fn is_finite_bits(bits: u64) -> (finite: bool)
    ensures
        finite == finite_bits(bits),
{
    (bits >> 52) & 0x7ff != 0x7ff
}

/// One of an observer's four numbers.
#[derive(Debug, Clone, Copy, PartialEq, Eq, Structural)]
pub enum ObserverQuantity {
    T,
    R,
    Phi,
    Tau,
}

/// One of a ray's five numbers.
#[derive(Debug, Clone, Copy, PartialEq, Eq, Structural)]
pub enum RayQuantity {
    T,
    R,
    Phi,
    DrDt,
    DphiDt,
}

/// The first statement about a run that does not hold. Pulses are named by their serial number
/// `index`, rays by their position `ray` in the pulse.
#[derive(Debug, Clone, Copy, PartialEq, Eq, Structural)]
pub enum Violation {
    /// The simulation clock is not finite.
    ClockNotFinite,
    /// One of an observer's numbers is not finite.
    ObserverNotFinite { observer: Party, quantity: ObserverQuantity },
    /// A transmission's clock is not finite.
    FieldNotFinite { field: Party },
    /// A transmission's clock has come adrift of the simulation clock.
    FieldOffClock { field: Party },
    /// A transmission holds more pulses than its cap (floored at one) allows.
    OverCap { field: Party, held: usize, cap: usize },
    /// A pulse follows one whose serial number is not below its own.
    OutOfOrder { field: Party, index: usize, after: usize },
    /// A pulse's serial number has not been handed out yet.
    NotYetIssued { field: Party, index: usize, next: usize },
    /// A role names a ray past the end of its pulse.
    RoleOutOfRange { field: Party, index: usize, role: usize, rays: usize },
    /// One of a ray's numbers is not finite.
    RayNotFinite { field: Party, index: usize, ray: usize, component: RayQuantity },
    /// A ray stands inside the ring.
    RayInsideRing { field: Party, index: usize, ray: usize },
    /// A ray's clock has come adrift of its field's.
    RayOffClock { field: Party, index: usize, ray: usize },
    /// A ray has a death time without a boundary, or a boundary without a death time.
    DeathMismatch { field: Party, index: usize, ray: usize },
    /// A ray's death time is not finite.
    DeathNotFinite { field: Party, index: usize, ray: usize },
}

/// The first of an observer's numbers that is not finite, in the order t, r, phi, tau.
pub open spec fn observer_violation(who: Party, observer: Option<ObserverState>) -> Option<
    Violation,
> {
    match observer {
        None => None,
        Some(o) => if !finite_bits(o.t) {
            Some(Violation::ObserverNotFinite { observer: who, quantity: ObserverQuantity::T })
        } else if !finite_bits(o.r) {
            Some(Violation::ObserverNotFinite { observer: who, quantity: ObserverQuantity::R })
        } else if !finite_bits(o.phi) {
            Some(Violation::ObserverNotFinite { observer: who, quantity: ObserverQuantity::Phi })
        } else if !finite_bits(o.tau) {
            Some(Violation::ObserverNotFinite { observer: who, quantity: ObserverQuantity::Tau })
        } else {
            None
        },
    }
}

/// What is wrong with ray number `k` of the pulse with serial number `index`, if anything, in the
/// order the checks are made: finiteness of t, r, phi, dr/dt, dphi/dt, then the ring, the clock,
/// the death record and the death time.
pub open spec fn ray_violation(field: Party, index: usize, k: int, ray: RayState) -> Option<
    Violation,
> {
    let k = k as usize;
    if !finite_bits(ray.t) {
        Some(Violation::RayNotFinite { field, index, ray: k, component: RayQuantity::T })
    } else if !finite_bits(ray.r) {
        Some(Violation::RayNotFinite { field, index, ray: k, component: RayQuantity::R })
    } else if !finite_bits(ray.phi) {
        Some(Violation::RayNotFinite { field, index, ray: k, component: RayQuantity::Phi })
    } else if !finite_bits(ray.dr_dt) {
        Some(Violation::RayNotFinite { field, index, ray: k, component: RayQuantity::DrDt })
    } else if !finite_bits(ray.dphi_dt) {
        Some(Violation::RayNotFinite { field, index, ray: k, component: RayQuantity::DphiDt })
    } else if ray.inside_ring {
        Some(Violation::RayInsideRing { field, index, ray: k })
    } else if ray.off_clock {
        Some(Violation::RayOffClock { field, index, ray: k })
    } else if ray.death_t.is_some() != ray.died_at_boundary {
        Some(Violation::DeathMismatch { field, index, ray: k })
    } else if ray.death_t matches Some(d) && !finite_bits(d) {
        Some(Violation::DeathNotFinite { field, index, ray: k })
    } else {
        None
    }
}

/// The first ray of `rays` that something is wrong with.
pub open spec fn rays_violation(field: Party, index: usize, rays: Seq<RayState>) -> Option<
    Violation,
>
    decreases rays.len(),
{
    if rays.len() == 0 {
        None
    } else {
        match rays_violation(field, index, rays.drop_last()) {
            Some(v) => Some(v),
            None => ray_violation(field, index, rays.len() - 1, rays.last()),
        }
    }
}

/// The first role of `roles` that names a ray at or past `n`.
pub open spec fn first_bad_role(roles: Seq<Option<usize>>, n: usize) -> Option<usize>
    decreases roles.len(),
{
    if roles.len() == 0 {
        None
    } else {
        match first_bad_role(roles.drop_last(), n) {
            Some(role) => Some(role),
            None => match roles.last() {
                Some(role) => if role >= n {
                    Some(role)
                } else {
                    None
                },
                None => None,
            },
        }
    }
}

/// What is wrong with pulse `i` of a field, if anything: its order after pulse `i - 1`, its
/// serial number against the next one to be handed out, its roles, then its rays.
pub open spec fn pulse_violation(who: Party, field: FieldState, i: int) -> Option<Violation> {
    let pulses = field.pulses@;
    let p = pulses[i];
    if i > 0 && p.index <= pulses[i - 1].index {
        Some(Violation::OutOfOrder { field: who, index: p.index, after: pulses[i - 1].index })
    } else if p.index >= field.next_index {
        Some(Violation::NotYetIssued { field: who, index: p.index, next: field.next_index })
    } else {
        match first_bad_role(p.role_rays@, p.rays.len()) {
            Some(role) => Some(
                Violation::RoleOutOfRange {
                    field: who,
                    index: p.index,
                    role,
                    rays: p.rays.len(),
                },
            ),
            None => rays_violation(who, p.index, p.rays@),
        }
    }
}

/// The first of the first `n` pulses of a field that something is wrong with.
pub open spec fn pulses_violation(who: Party, field: FieldState, n: int) -> Option<Violation>
    decreases n,
{
    if n <= 0 {
        None
    } else {
        match pulses_violation(who, field, n - 1) {
            Some(v) => Some(v),
            None => pulse_violation(who, field, n - 1),
        }
    }
}

/// The cap a field is held to: its `max_pulses`, floored at one.
pub open spec fn pulse_cap(field: FieldState) -> usize {
    if field.max_pulses >= 1 {
        field.max_pulses
    } else {
        1
    }
}

/// What is wrong with a transmission, if anything: its clock, then its cap, then its pulses.
pub open spec fn field_violation(who: Party, field: FieldState) -> Option<Violation> {
    if !finite_bits(field.t) {
        Some(Violation::FieldNotFinite { field: who })
    } else if field.off_clock {
        Some(Violation::FieldOffClock { field: who })
    } else if field.pulses@.len() > pulse_cap(field) {
        Some(
            Violation::OverCap {
                field: who,
                held: field.pulses.len(),
                cap: field.max_pulses,
            },
        )
    } else {
        pulses_violation(who, field, field.pulses@.len() as int)
    }
}

/// The first thing wrong with a run, in the order the checks are made: the clock, Alice, Bob,
/// Alice's transmission, Bob's transmission.
pub open spec fn run_violation(state: RunState) -> Option<Violation> {
    if !finite_bits(state.clock) {
        Some(Violation::ClockNotFinite)
    } else if observer_violation(Party::Alice, state.alice) is Some {
        observer_violation(Party::Alice, state.alice)
    } else if observer_violation(Party::Bob, state.bob) is Some {
        observer_violation(Party::Bob, state.bob)
    } else if field_violation(Party::Alice, state.alice_signal) is Some {
        field_violation(Party::Alice, state.alice_signal)
    } else {
        field_violation(Party::Bob, state.bob_signal)
    }
}

fn check_observer(who: Party, observer: &Option<ObserverState>) -> (v: Option<Violation>)
    ensures
        v == observer_violation(who, *observer),
{
    match observer {
        None => None,
        Some(o) => if !is_finite_bits(o.t) {
            Some(Violation::ObserverNotFinite { observer: who, quantity: ObserverQuantity::T })
        } else if !is_finite_bits(o.r) {
            Some(Violation::ObserverNotFinite { observer: who, quantity: ObserverQuantity::R })
        } else if !is_finite_bits(o.phi) {
            Some(Violation::ObserverNotFinite { observer: who, quantity: ObserverQuantity::Phi })
        } else if !is_finite_bits(o.tau) {
            Some(Violation::ObserverNotFinite { observer: who, quantity: ObserverQuantity::Tau })
        } else {
            None
        },
    }
}

fn check_ray(field: Party, index: usize, k: usize, ray: &RayState) -> (v: Option<Violation>)
    ensures
        v == ray_violation(field, index, k as int, *ray),
{
    if !is_finite_bits(ray.t) {
        Some(Violation::RayNotFinite { field, index, ray: k, component: RayQuantity::T })
    } else if !is_finite_bits(ray.r) {
        Some(Violation::RayNotFinite { field, index, ray: k, component: RayQuantity::R })
    } else if !is_finite_bits(ray.phi) {
        Some(Violation::RayNotFinite { field, index, ray: k, component: RayQuantity::Phi })
    } else if !is_finite_bits(ray.dr_dt) {
        Some(Violation::RayNotFinite { field, index, ray: k, component: RayQuantity::DrDt })
    } else if !is_finite_bits(ray.dphi_dt) {
        Some(Violation::RayNotFinite { field, index, ray: k, component: RayQuantity::DphiDt })
    } else if ray.inside_ring {
        Some(Violation::RayInsideRing { field, index, ray: k })
    } else if ray.off_clock {
        Some(Violation::RayOffClock { field, index, ray: k })
    } else if ray.death_t.is_some() != ray.died_at_boundary {
        Some(Violation::DeathMismatch { field, index, ray: k })
    } else {
        match ray.death_t {
            Some(d) => if !is_finite_bits(d) {
                Some(Violation::DeathNotFinite { field, index, ray: k })
            } else {
                None
            },
            None => None,
        }
    }
}

fn check_roles(roles: &Vec<Option<usize>>, n: usize) -> (bad: Option<usize>)
    ensures
        bad == first_bad_role(roles@, n),
{
    let mut i: usize = 0;
    while i < roles.len()
        invariant
            0 <= i <= roles.len(),
            first_bad_role(roles@.take(i as int), n) is None,
        decreases roles.len() - i,
    {
        proof {
            assert(roles@.take(i + 1).drop_last() =~= roles@.take(i as int));
        }
        match roles[i] {
            Some(role) => if role >= n {
                proof { lemma_first_bad_role_prefix(roles@, n, i + 1); }
                return Some(role);
            },
            None => {},
        }
        i = i + 1;
    }
    proof { assert(roles@.take(roles@.len() as int) =~= roles@); }
    None
}

/// Once a prefix has a bad role, every longer prefix reports the same one.
proof fn lemma_first_bad_role_prefix(roles: Seq<Option<usize>>, n: usize, i: int)
    requires
        0 <= i <= roles.len(),
    ensures
        first_bad_role(roles.take(i), n) is Some ==> first_bad_role(roles, n) == first_bad_role(
            roles.take(i),
            n,
        ),
    decreases roles.len() - i,
{
    if i < roles.len() {
        lemma_first_bad_role_prefix(roles, n, i + 1);
        assert(roles.take(i + 1).drop_last() =~= roles.take(i));
    } else {
        assert(roles.take(i) =~= roles);
    }
}

/// Once a prefix of the rays has a violation, every longer prefix reports the same one.
proof fn lemma_rays_violation_prefix(field: Party, index: usize, rays: Seq<RayState>, i: int)
    requires
        0 <= i <= rays.len(),
    ensures
        rays_violation(field, index, rays.take(i)) is Some ==> rays_violation(field, index, rays)
            == rays_violation(field, index, rays.take(i)),
    decreases rays.len() - i,
{
    if i < rays.len() {
        lemma_rays_violation_prefix(field, index, rays, i + 1);
        assert(rays.take(i + 1).drop_last() =~= rays.take(i));
    } else {
        assert(rays.take(i) =~= rays);
    }
}

/// Once the first `i` pulses have a violation, every longer prefix reports the same one.
proof fn lemma_pulses_violation_prefix(who: Party, field: FieldState, i: int, n: int)
    requires
        0 <= i <= n,
    ensures
        pulses_violation(who, field, i) is Some ==> pulses_violation(who, field, n)
            == pulses_violation(who, field, i),
    decreases n - i,
{
    if i < n {
        lemma_pulses_violation_prefix(who, field, i, n - 1);
    }
}

fn check_rays(field: Party, index: usize, rays: &Vec<RayState>) -> (v: Option<Violation>)
    ensures
        v == rays_violation(field, index, rays@),
{
    let mut k: usize = 0;
    while k < rays.len()
        invariant
            0 <= k <= rays.len(),
            rays_violation(field, index, rays@.take(k as int)) is None,
        decreases rays.len() - k,
    {
        proof {
            assert(rays@.take(k + 1).drop_last() =~= rays@.take(k as int));
            assert(rays@.take(k + 1).last() == rays@[k as int]);
        }
        let v = check_ray(field, index, k, &rays[k]);
        if v.is_some() {
            proof { lemma_rays_violation_prefix(field, index, rays@, k + 1); }
            return v;
        }
        k = k + 1;
    }
    proof { assert(rays@.take(rays@.len() as int) =~= rays@); }
    None
}

fn check_pulse(who: Party, field: &FieldState, i: usize) -> (v: Option<Violation>)
    requires
        i < field.pulses@.len(),
    ensures
        v == pulse_violation(who, *field, i as int),
{
    let p = &field.pulses[i];
    if i > 0 && p.index <= field.pulses[i - 1].index {
        return Some(
            Violation::OutOfOrder { field: who, index: p.index, after: field.pulses[i - 1].index },
        );
    }
    if p.index >= field.next_index {
        return Some(
            Violation::NotYetIssued { field: who, index: p.index, next: field.next_index },
        );
    }
    match check_roles(&p.role_rays, p.rays.len()) {
        Some(role) => {
            return Some(
                Violation::RoleOutOfRange { field: who, index: p.index, role, rays: p.rays.len() },
            );
        },
        None => {},
    }
    check_rays(who, p.index, &p.rays)
}

fn check_field(who: Party, field: &FieldState) -> (v: Option<Violation>)
    ensures
        v == field_violation(who, *field),
{
    if !is_finite_bits(field.t) {
        return Some(Violation::FieldNotFinite { field: who });
    }
    if field.off_clock {
        return Some(Violation::FieldOffClock { field: who });
    }
    let cap: usize = if field.max_pulses >= 1 {
        field.max_pulses
    } else {
        1
    };
    if field.pulses.len() > cap {
        return Some(
            Violation::OverCap { field: who, held: field.pulses.len(), cap: field.max_pulses },
        );
    }
    let mut i: usize = 0;
    while i < field.pulses.len()
        invariant
            0 <= i <= field.pulses.len(),
            pulses_violation(who, *field, i as int) is None,
            finite_bits(field.t),
            !field.off_clock,
            field.pulses@.len() <= pulse_cap(*field),
        decreases field.pulses.len() - i,
    {
        let v = check_pulse(who, field, i);
        if v.is_some() {
            proof {
                assert(pulses_violation(who, *field, i + 1) == v);
                lemma_pulses_violation_prefix(who, *field, i + 1, field.pulses@.len() as int);
            }
            return v;
        }
        i = i + 1;
    }
    None
}

impl RunState {
    /// Everything that is true of every state a run can reach, checked in a fixed order: the
    /// first statement that fails is returned, and `Ok` exactly when none does.
    pub fn check_invariants(&self) -> (res: Result<(), Violation>)
        ensures
            res == match run_violation(*self) {
                None => Ok::<(), Violation>(()),
                Some(v) => Err(v),
            },
    {
        if !is_finite_bits(self.clock) {
            return Err(Violation::ClockNotFinite);
        }
        match check_observer(Party::Alice, &self.alice) {
            Some(v) => { return Err(v); },
            None => {},
        }
        match check_observer(Party::Bob, &self.bob) {
            Some(v) => { return Err(v); },
            None => {},
        }
        match check_field(Party::Alice, &self.alice_signal) {
            Some(v) => { return Err(v); },
            None => {},
        }
        match check_field(Party::Bob, &self.bob_signal) {
            Some(v) => Err(v),
            None => Ok(()),
        }
    }
}

// ------------------------------------------------------------------------------------------------
// The invariants, stated directly, and what follows from them.
// ------------------------------------------------------------------------------------------------

/// Every one of an observer's numbers is finite.
pub open spec fn observer_holds(observer: Option<ObserverState>) -> bool {
    observer matches Some(o) ==> finite_bits(o.t) && finite_bits(o.r) && finite_bits(o.phi)
        && finite_bits(o.tau)
}

/// A ray's numbers are finite, it stands outside the ring on its field's clock, it has a death
/// time exactly when it has a boundary, and a death time it has is finite.
pub open spec fn ray_holds(ray: RayState) -> bool {
    &&& finite_bits(ray.t)
    &&& finite_bits(ray.r)
    &&& finite_bits(ray.phi)
    &&& finite_bits(ray.dr_dt)
    &&& finite_bits(ray.dphi_dt)
    &&& !ray.inside_ring
    &&& !ray.off_clock
    &&& ray.death_t.is_some() == ray.died_at_boundary
    &&& (ray.death_t matches Some(d) ==> finite_bits(d))
}

/// Every role of a pulse names one of its rays, and every ray of it holds.
pub open spec fn pulse_holds(pulse: PulseState) -> bool {
    &&& forall|k: int|
        0 <= k < pulse.role_rays@.len() ==> (#[trigger] pulse.role_rays@[k] matches Some(role)
            ==> role < pulse.rays@.len())
    &&& forall|k: int| 0 <= k < pulse.rays@.len() ==> ray_holds(#[trigger] pulse.rays@[k])
}

/// A transmission's clock is finite and on the simulation clock, it holds no more pulses than its
/// cap, its serial numbers rise strictly from each pulse to the next and are all below the next
/// one to be handed out, and every pulse holds.
pub open spec fn field_holds(field: FieldState) -> bool {
    let pulses = field.pulses@;
    &&& finite_bits(field.t)
    &&& !field.off_clock
    &&& pulses.len() <= pulse_cap(field)
    &&& forall|i: int| #![trigger pulses[i]] 0 < i < pulses.len() ==> pulses[i - 1].index < pulses[i].index
    &&& forall|i: int| 0 <= i < pulses.len() ==> (#[trigger] pulses[i]).index < field.next_index
    &&& forall|i: int| 0 <= i < pulses.len() ==> pulse_holds(#[trigger] pulses[i])
}

/// Everything that is true of a reachable run: a finite clock, finite observers, and both
/// transmissions holding.
pub open spec fn invariants_hold(state: RunState) -> bool {
    &&& finite_bits(state.clock)
    &&& observer_holds(state.alice)
    &&& observer_holds(state.bob)
    &&& field_holds(state.alice_signal)
    &&& field_holds(state.bob_signal)
}

proof fn lemma_rays_violation_none(field: Party, index: usize, rays: Seq<RayState>)
    ensures
        rays_violation(field, index, rays) is None <==> forall|k: int|
            0 <= k < rays.len() ==> ray_holds(#[trigger] rays[k]),
    decreases rays.len(),
{
    if rays.len() > 0 {
        let front = rays.drop_last();
        lemma_rays_violation_none(field, index, front);
        assert forall|k: int| 0 <= k < front.len() implies front[k] == rays[k] by {}
        if rays_violation(field, index, rays) is None {
            assert forall|k: int| 0 <= k < rays.len() implies ray_holds(#[trigger] rays[k]) by {
                if k < front.len() {
                    assert(ray_holds(front[k]));
                }
            }
        } else if forall|k: int| 0 <= k < rays.len() ==> ray_holds(#[trigger] rays[k]) {
            assert(ray_holds(rays[rays.len() - 1]));
            assert forall|k: int| 0 <= k < front.len() implies ray_holds(#[trigger] front[k]) by {
                assert(ray_holds(rays[k]));
            }
        }
    }
}

proof fn lemma_first_bad_role_none(roles: Seq<Option<usize>>, n: usize)
    ensures
        first_bad_role(roles, n) is None <==> forall|k: int|
            0 <= k < roles.len() ==> (#[trigger] roles[k] matches Some(role) ==> role < n),
    decreases roles.len(),
{
    if roles.len() > 0 {
        let front = roles.drop_last();
        lemma_first_bad_role_none(front, n);
        assert forall|k: int| 0 <= k < front.len() implies front[k] == roles[k] by {}
        if first_bad_role(roles, n) is None {
            assert forall|k: int| 0 <= k < roles.len() implies (#[trigger] roles[k] matches Some(
                role,
            ) ==> role < n) by {
                if k < front.len() {
                    assert(front[k] == roles[k]);
                }
            }
        } else if forall|k: int|
            0 <= k < roles.len() ==> (#[trigger] roles[k] matches Some(role) ==> role < n) {
            assert(roles[roles.len() - 1] == roles.last());
            assert forall|k: int| 0 <= k < front.len() implies (#[trigger] front[k] matches Some(
                role,
            ) ==> role < n) by {
                assert(front[k] == roles[k]);
            }
        }
    }
}

proof fn lemma_pulse_violation_none(who: Party, field: FieldState, i: int)
    requires
        0 <= i < field.pulses@.len(),
    ensures
        pulse_violation(who, field, i) is None <==> {
            let pulses = field.pulses@;
            &&& (i > 0 ==> pulses[i - 1].index < pulses[i].index)
            &&& pulses[i].index < field.next_index
            &&& pulse_holds(pulses[i])
        },
{
    let p = field.pulses@[i];
    lemma_first_bad_role_none(p.role_rays@, p.rays.len());
    lemma_rays_violation_none(who, p.index, p.rays@);
}

proof fn lemma_pulses_violation_none(who: Party, field: FieldState, n: int)
    requires
        0 <= n <= field.pulses@.len(),
    ensures
        pulses_violation(who, field, n) is None <==> forall|i: int|
            0 <= i < n ==> pulse_violation(who, field, i) is None,
    decreases n,
{
    if n > 0 {
        lemma_pulses_violation_none(who, field, n - 1);
    }
}

proof fn lemma_field_violation_none(who: Party, field: FieldState)
    ensures
        field_violation(who, field) is None <==> field_holds(field),
{
    let pulses = field.pulses@;
    let n = pulses.len() as int;
    if finite_bits(field.t) && !field.off_clock && pulses.len() <= pulse_cap(field) {
        lemma_pulses_violation_none(who, field, n);
        if field_violation(who, field) is None {
            assert forall|i: int| #![trigger pulses[i]] 0 < i < n implies pulses[i - 1].index
                < pulses[i].index by {
                lemma_pulse_violation_none(who, field, i);
            }
            assert forall|i: int| 0 <= i < n implies (#[trigger] pulses[i]).index
                < field.next_index by {
                lemma_pulse_violation_none(who, field, i);
            }
            assert forall|i: int| 0 <= i < n implies pulse_holds(#[trigger] pulses[i]) by {
                lemma_pulse_violation_none(who, field, i);
            }
        } else if field_holds(field) {
            assert forall|i: int| 0 <= i < n implies pulse_violation(who, field, i) is None by {
                lemma_pulse_violation_none(who, field, i);
                assert(pulses[i].index < field.next_index);
                assert(pulse_holds(pulses[i]));
            }
        }
    }
}

/// The check is exactly the list of invariants: it passes a run if and only if every invariant
/// holds of it, and when it refuses one, the refusal names something that is really wrong.
pub proof fn lemma_check_is_the_invariants(state: RunState)
    ensures
        run_violation(state) is None <==> invariants_hold(state),
{
    lemma_field_violation_none(Party::Alice, state.alice_signal);
    lemma_field_violation_none(Party::Bob, state.bob_signal);
}

/// In a run whose invariants hold, the serial numbers of a transmission's pulses are strictly
/// increasing in emission order (so no serial number is used twice) and all below the next one to
/// be handed out.
pub proof fn lemma_serial_numbers_increase(field: FieldState, i: int, j: int)
    requires
        field_holds(field),
        0 <= i < j < field.pulses@.len(),
    ensures
        field.pulses@[i].index < field.pulses@[j].index,
        field.pulses@[j].index < field.next_index,
    decreases j - i,
{
    let pulses = field.pulses@;
    assert(pulses[j - 1].index < pulses[j].index);
    if i < j - 1 {
        lemma_serial_numbers_increase(field, i, j - 1);
    }
    assert(pulses[j].index < field.next_index);
}

/// A present number and an absent one are never fed to the hash as the same words, and neither
/// are two present numbers that differ.
pub proof fn lemma_maybe_words_distinguish(a: Option<u64>, b: Option<u64>)
    ensures
        a != b ==> maybe_words(a) != maybe_words(b),
{
    if a != b {
        match (a, b) {
            (Some(x), Some(y)) => {
                assert(maybe_words(a)[1] == x);
                assert(maybe_words(b)[1] == y);
            },
            (Some(_), None) => {
                assert(maybe_words(a).len() != maybe_words(b).len());
            },
            (None, Some(_)) => {
                assert(maybe_words(a).len() != maybe_words(b).len());
            },
            (None, None) => {},
        }
    }
}

// ------------------------------------------------------------------------------------------------
// The fingerprint's input, written out front to back.
// ------------------------------------------------------------------------------------------------

/// A ray, front to back: r, phi, dr/dt, dphi/dt, then 1 and its death time if it has one, or 0.
pub open spec fn ray_fed(ray: RayState) -> Seq<u64> {
    match ray.death_t {
        Some(d) => seq![ray.r, ray.phi, ray.dr_dt, ray.dphi_dt, 1u64, d],
        None => seq![ray.r, ray.phi, ray.dr_dt, ray.dphi_dt, 0u64],
    }
}

/// The rays of a pulse, first ray first.
pub open spec fn rays_fed(rays: Seq<RayState>) -> Seq<u64>
    decreases rays.len(),
{
    if rays.len() == 0 {
        Seq::empty()
    } else {
        ray_fed(rays[0]) + rays_fed(rays.drop_first())
    }
}

/// The pulses of a transmission, first pulse first: each one's serial number, then its rays.
pub open spec fn pulses_fed(pulses: Seq<PulseState>) -> Seq<u64>
    decreases pulses.len(),
{
    if pulses.len() == 0 {
        Seq::empty()
    } else {
        seq![pulses[0].index as u64] + rays_fed(pulses[0].rays@) + pulses_fed(pulses.drop_first())
    }
}

/// The arrivals of a transmission, first arrival first: each one's t, r and ratio.
pub open spec fn receptions_fed(receptions: Seq<ReceptionState>) -> Seq<u64>
    decreases receptions.len(),
{
    if receptions.len() == 0 {
        Seq::empty()
    } else {
        seq![receptions[0].t, receptions[0].r, receptions[0].ratio] + receptions_fed(
            receptions.drop_first(),
        )
    }
}

/// A transmission, front to back: its clock, the number of pulses it holds, its pulses, its
/// arrivals.
pub open spec fn field_fed(field: FieldState) -> Seq<u64> {
    seq![field.t, field.pulses@.len() as u64] + pulses_fed(field.pulses@) + receptions_fed(
        field.receptions@,
    )
}

/// A run, front to back: the clock; Alice and then Bob, each as 1 followed by t, r, phi and tau
/// when present and as 0 when absent; Alice's transmission; Bob's transmission.
pub open spec fn run_fed(state: RunState) -> Seq<u64> {
    let observer = |o: Option<ObserverState>|
        if o is Some {
            seq![1u64, o->0.t, o->0.r, o->0.phi, o->0.tau]
        } else {
            seq![0u64]
        };
    seq![state.clock] + observer(state.alice) + observer(state.bob) + field_fed(state.alice_signal)
        + field_fed(state.bob_signal)
}

proof fn lemma_rays_words_concat(a: Seq<RayState>, b: Seq<RayState>)
    ensures
        rays_words(a + b) == rays_words(a) + rays_words(b),
    decreases b.len(),
{
    if b.len() == 0 {
        assert(a + b =~= a);
        assert(rays_words(a) + rays_words(b) =~= rays_words(a));
    } else {
        lemma_rays_words_concat(a, b.drop_last());
        assert((a + b).drop_last() =~= a + b.drop_last());
        assert((a + b).last() == b.last());
        assert(rays_words(a) + rays_words(b.drop_last()) + ray_words(b.last()) =~= rays_words(a)
            + (rays_words(b.drop_last()) + ray_words(b.last())));
    }
}

proof fn lemma_rays_front_to_back(rays: Seq<RayState>)
    ensures
        rays_words(rays) == rays_fed(rays),
    decreases rays.len(),
{
    if rays.len() > 0 {
        let rest = rays.drop_first();
        lemma_rays_front_to_back(rest);
        lemma_rays_words_concat(seq![rays[0]], rest);
        assert(seq![rays[0]] + rest =~= rays);
        assert(seq![rays[0]].drop_last() =~= Seq::<RayState>::empty());
        assert(rays_words(seq![rays[0]]) =~= ray_words(rays[0])) by {
            reveal_with_fuel(rays_words, 2);
            assert(seq![rays[0]].last() == rays[0]);
        }
        assert(ray_words(rays[0]) =~= ray_fed(rays[0]));
    }
}

proof fn lemma_pulses_words_concat(a: Seq<PulseState>, b: Seq<PulseState>)
    ensures
        pulses_words(a + b) == pulses_words(a) + pulses_words(b),
    decreases b.len(),
{
    if b.len() == 0 {
        assert(a + b =~= a);
        assert(pulses_words(a) + pulses_words(b) =~= pulses_words(a));
    } else {
        lemma_pulses_words_concat(a, b.drop_last());
        assert((a + b).drop_last() =~= a + b.drop_last());
        assert((a + b).last() == b.last());
        assert(pulses_words(a) + pulses_words(b.drop_last()) + pulse_words(b.last())
            =~= pulses_words(a) + (pulses_words(b.drop_last()) + pulse_words(b.last())));
    }
}

proof fn lemma_pulses_front_to_back(pulses: Seq<PulseState>)
    ensures
        pulses_words(pulses) == pulses_fed(pulses),
    decreases pulses.len(),
{
    if pulses.len() > 0 {
        let rest = pulses.drop_first();
        lemma_pulses_front_to_back(rest);
        lemma_pulses_words_concat(seq![pulses[0]], rest);
        lemma_rays_front_to_back(pulses[0].rays@);
        assert(seq![pulses[0]] + rest =~= pulses);
        assert(seq![pulses[0]].drop_last() =~= Seq::<PulseState>::empty());
        assert(pulses_words(seq![pulses[0]]) =~= pulse_words(pulses[0])) by {
            reveal_with_fuel(pulses_words, 2);
            assert(seq![pulses[0]].last() == pulses[0]);
        }
    }
}

proof fn lemma_receptions_words_concat(a: Seq<ReceptionState>, b: Seq<ReceptionState>)
    ensures
        receptions_words(a + b) == receptions_words(a) + receptions_words(b),
    decreases b.len(),
{
    if b.len() == 0 {
        assert(a + b =~= a);
        assert(receptions_words(a) + receptions_words(b) =~= receptions_words(a));
    } else {
        lemma_receptions_words_concat(a, b.drop_last());
        assert((a + b).drop_last() =~= a + b.drop_last());
        assert((a + b).last() == b.last());
        assert(receptions_words(a) + receptions_words(b.drop_last()) + reception_words(b.last())
            =~= receptions_words(a) + (receptions_words(b.drop_last()) + reception_words(
            b.last(),
        )));
    }
}

proof fn lemma_receptions_front_to_back(receptions: Seq<ReceptionState>)
    ensures
        receptions_words(receptions) == receptions_fed(receptions),
    decreases receptions.len(),
{
    if receptions.len() > 0 {
        let rest = receptions.drop_first();
        lemma_receptions_front_to_back(rest);
        lemma_receptions_words_concat(seq![receptions[0]], rest);
        assert(seq![receptions[0]] + rest =~= receptions);
        assert(seq![receptions[0]].drop_last() =~= Seq::<ReceptionState>::empty());
        assert(receptions_words(seq![receptions[0]]) =~= reception_words(receptions[0])) by {
            reveal_with_fuel(receptions_words, 2);
            assert(seq![receptions[0]].last() == receptions[0]);
        }
    }
}

/// A transmission is fed as its clock, then the number of pulses it holds (not the number of
/// arrivals), then each pulse in turn - its serial number and each of its rays - then each arrival
/// in turn.
pub proof fn lemma_field_front_to_back(field: FieldState)
    ensures
        field_words(field) == field_fed(field),
        field_words(field)[0] == field.t,
        field_words(field)[1] == field.pulses@.len() as u64,
{
    lemma_pulses_front_to_back(field.pulses@);
    lemma_receptions_front_to_back(field.receptions@);
}

/// The fingerprint is FNV-1a from the offset basis over the run written out front to back: the
/// clock, both observers (tagged present or absent), then each transmission - its clock, its pulse
/// count, every pulse's serial number and rays, every arrival - Alice's before Bob's.
pub proof fn lemma_fingerprint_front_to_back(state: RunState)
    ensures
        run_words(state) == run_fed(state),
        spec_fingerprint(state) == fnv_words(FNV_OFFSET, run_fed(state)),
        run_words(state)[0] == state.clock,
{
    lemma_field_front_to_back(state.alice_signal);
    lemma_field_front_to_back(state.bob_signal);
    let observer = |o: Option<ObserverState>|
        if o is Some {
            seq![1u64, o->0.t, o->0.r, o->0.phi, o->0.tau]
        } else {
            seq![0u64]
        };
    assert(observer_words(state.alice) == observer(state.alice));
    assert(observer_words(state.bob) == observer(state.bob));
    assert(run_words(state) =~= run_fed(state));
}

// ------------------------------------------------------------------------------------------------
// What a refusal says about the run.
// ------------------------------------------------------------------------------------------------

/// One of the two observers of a run.
pub open spec fn party_observer(state: RunState, who: Party) -> Option<ObserverState> {
    match who {
        Party::Alice => state.alice,
        Party::Bob => state.bob,
    }
}

/// One of the two transmissions of a run.
pub open spec fn party_field(state: RunState, who: Party) -> FieldState {
    match who {
        Party::Alice => state.alice_signal,
        Party::Bob => state.bob_signal,
    }
}

/// The bit pattern of one of an observer's numbers.
pub open spec fn observer_quantity(o: ObserverState, quantity: ObserverQuantity) -> u64 {
    match quantity {
        ObserverQuantity::T => o.t,
        ObserverQuantity::R => o.r,
        ObserverQuantity::Phi => o.phi,
        ObserverQuantity::Tau => o.tau,
    }
}

/// The bit pattern of one of a ray's numbers.
pub open spec fn ray_component(ray: RayState, component: RayQuantity) -> u64 {
    match component {
        RayQuantity::T => ray.t,
        RayQuantity::R => ray.r,
        RayQuantity::Phi => ray.phi,
        RayQuantity::DrDt => ray.dr_dt,
        RayQuantity::DphiDt => ray.dphi_dt,
    }
}

/// The transmission a refusal is about, if it is about one.
pub open spec fn violation_field(v: Violation) -> Option<Party> {
    match v {
        Violation::ClockNotFinite => None,
        Violation::ObserverNotFinite { .. } => None,
        Violation::FieldNotFinite { field } => Some(field),
        Violation::FieldOffClock { field } => Some(field),
        Violation::OverCap { field, .. } => Some(field),
        Violation::OutOfOrder { field, .. } => Some(field),
        Violation::NotYetIssued { field, .. } => Some(field),
        Violation::RoleOutOfRange { field, .. } => Some(field),
        Violation::RayNotFinite { field, .. } => Some(field),
        Violation::RayInsideRing { field, .. } => Some(field),
        Violation::RayOffClock { field, .. } => Some(field),
        Violation::DeathMismatch { field, .. } => Some(field),
        Violation::DeathNotFinite { field, .. } => Some(field),
    }
}

/// Whether a refusal about a ray is true of `ray`.
pub open spec fn ray_fault(ray: RayState, v: Violation) -> bool {
    match v {
        Violation::RayNotFinite { component, .. } => !finite_bits(ray_component(ray, component)),
        Violation::RayInsideRing { .. } => ray.inside_ring,
        Violation::RayOffClock { .. } => ray.off_clock,
        Violation::DeathMismatch { .. } => ray.death_t.is_some() != ray.died_at_boundary,
        Violation::DeathNotFinite { .. } => ray.death_t matches Some(d) && !finite_bits(d),
        _ => false,
    }
}

/// The pulse and ray a refusal about a ray names.
pub open spec fn violation_ray(v: Violation) -> Option<(usize, usize)> {
    match v {
        Violation::RayNotFinite { index, ray, .. } => Some((index, ray)),
        Violation::RayInsideRing { index, ray, .. } => Some((index, ray)),
        Violation::RayOffClock { index, ray, .. } => Some((index, ray)),
        Violation::DeathMismatch { index, ray, .. } => Some((index, ray)),
        Violation::DeathNotFinite { index, ray, .. } => Some((index, ray)),
        _ => None,
    }
}

/// Whether a refusal about a transmission is true of `field`: its clock is not finite, it is off
/// the simulation clock, it holds more pulses than its cap (with the count and the unfloored cap
/// it names), or it holds a pulse with the serial number named that follows one numbered no lower,
/// has not been issued yet, has a role past its rays, or has a ray at the position named that is
/// wrong in the way named.
pub open spec fn field_fault(field: FieldState, v: Violation) -> bool {
    let pulses = field.pulses@;
    match v {
        Violation::FieldNotFinite { .. } => !finite_bits(field.t),
        Violation::FieldOffClock { .. } => field.off_clock,
        Violation::OverCap { held, cap, .. } => held == pulses.len() && cap == field.max_pulses
            && pulses.len() > pulse_cap(field),
        Violation::OutOfOrder { index, after, .. } => index <= after && exists|i: int|
            0 < i < pulses.len() && (#[trigger] pulses[i]).index == index && pulses[i - 1].index
                == after,
        Violation::NotYetIssued { index, next, .. } => next == field.next_index && index >= next
            && exists|i: int| 0 <= i < pulses.len() && (#[trigger] pulses[i]).index == index,
        Violation::RoleOutOfRange { index, role, rays, .. } => role >= rays && exists|i: int|
            0 <= i < pulses.len() && (#[trigger] pulses[i]).index == index && pulses[i].rays@.len()
                == rays && pulses[i].role_rays@.contains(Some(role)),
        _ => violation_ray(v) matches Some((index, k)) && exists|i: int|
            0 <= i < pulses.len() && (#[trigger] pulses[i]).index == index && k
                < pulses[i].rays@.len() && ray_fault(pulses[i].rays@[k as int], v),
    }
}

/// Whether the checks a transmission is put through before the one that makes refusal `v` all
/// passed: its clock, then its being on the simulation clock, then its cap, then its pulses.
pub open spec fn field_checked_before(field: FieldState, v: Violation) -> bool {
    match v {
        Violation::FieldNotFinite { .. } => true,
        Violation::FieldOffClock { .. } => finite_bits(field.t),
        Violation::OverCap { .. } => finite_bits(field.t) && !field.off_clock,
        _ => finite_bits(field.t) && !field.off_clock && field.pulses@.len() <= pulse_cap(field),
    }
}

/// Whether an observer's numbers checked before `quantity` (in the order t, r, phi, tau) are
/// finite.
pub open spec fn quantities_checked_before(o: ObserverState, quantity: ObserverQuantity) -> bool {
    match quantity {
        ObserverQuantity::T => true,
        ObserverQuantity::R => finite_bits(o.t),
        ObserverQuantity::Phi => finite_bits(o.t) && finite_bits(o.r),
        ObserverQuantity::Tau => finite_bits(o.t) && finite_bits(o.r) && finite_bits(o.phi),
    }
}

/// Whether refusal `v` names something that is really wrong with `state`.
pub open spec fn names_a_fault(state: RunState, v: Violation) -> bool {
    match v {
        Violation::ClockNotFinite => !finite_bits(state.clock),
        Violation::ObserverNotFinite { observer, quantity } => party_observer(state, observer) matches Some(o)
            && !finite_bits(observer_quantity(o, quantity)) && quantities_checked_before(
            o,
            quantity,
        ),
        _ => violation_field(v) matches Some(who) && field_fault(party_field(state, who), v)
            && field_checked_before(party_field(state, who), v),
    }
}

/// The serial number of the pulse a refusal is about, if it is about one.
pub open spec fn violation_pulse(v: Violation) -> Option<usize> {
    match v {
        Violation::OutOfOrder { index, .. } => Some(index),
        Violation::NotYetIssued { index, .. } => Some(index),
        Violation::RoleOutOfRange { index, .. } => Some(index),
        _ => match violation_ray(v) {
            Some((index, _)) => Some(index),
            None => None,
        },
    }
}

/// Whether pulse `i` of a transmission passes every check made of it: it follows a pulse numbered
/// lower, it has been issued, and it holds.
pub open spec fn pulse_passes(field: FieldState, i: int) -> bool {
    let pulses = field.pulses@;
    &&& (i > 0 ==> pulses[i - 1].index < pulses[i].index)
    &&& pulses[i].index < field.next_index
    &&& pulse_holds(pulses[i])
}

/// Whether the checks a ray is put through before the one that makes refusal `v` all passed: its
/// numbers in the order t, r, phi, dr/dt, dphi/dt, then the ring, the clock and the death record.
pub open spec fn ray_checked_before(ray: RayState, v: Violation) -> bool {
    let finite = finite_bits(ray.t) && finite_bits(ray.r) && finite_bits(ray.phi) && finite_bits(
        ray.dr_dt,
    ) && finite_bits(ray.dphi_dt);
    match v {
        Violation::RayNotFinite { component, .. } => match component {
            RayQuantity::T => true,
            RayQuantity::R => finite_bits(ray.t),
            RayQuantity::Phi => finite_bits(ray.t) && finite_bits(ray.r),
            RayQuantity::DrDt => finite_bits(ray.t) && finite_bits(ray.r) && finite_bits(ray.phi),
            RayQuantity::DphiDt => finite_bits(ray.t) && finite_bits(ray.r) && finite_bits(ray.phi)
                && finite_bits(ray.dr_dt),
        },
        Violation::RayInsideRing { .. } => finite,
        Violation::RayOffClock { .. } => finite && !ray.inside_ring,
        Violation::DeathMismatch { .. } => finite && !ray.inside_ring && !ray.off_clock,
        _ => finite && !ray.inside_ring && !ray.off_clock && ray.death_t.is_some()
            == ray.died_at_boundary,
    }
}

/// Whether the checks made of pulse `i` before the one that makes refusal `v` all passed: its
/// order, then its being issued, then its roles in order, then its rays in order.
pub open spec fn pulse_checked_before(field: FieldState, i: int, v: Violation) -> bool {
    let pulses = field.pulses@;
    let p = pulses[i];
    let ordered = i > 0 ==> pulses[i - 1].index < p.index;
    let issued = p.index < field.next_index;
    let roles = p.role_rays@;
    let rays = p.rays@;
    match v {
        Violation::OutOfOrder { .. } => true,
        Violation::NotYetIssued { .. } => ordered,
        Violation::RoleOutOfRange { role, .. } => ordered && issued && exists|k: int|
            0 <= k < roles.len() && roles[k] == Some(role) && forall|k2: int|
                0 <= k2 < k ==> (#[trigger] roles[k2] matches Some(r) ==> r < rays.len()),
        _ => {
            &&& ordered
            &&& issued
            &&& forall|k: int|
                0 <= k < roles.len() ==> (#[trigger] roles[k] matches Some(r) ==> r < rays.len())
            &&& (violation_ray(v) matches Some((_, k)) && (forall|k2: int|
                0 <= k2 < k ==> ray_holds(#[trigger] rays[k2])) && ray_checked_before(
                rays[k as int],
                v,
            ))
        },
    }
}

proof fn lemma_first_bad_role_sound(roles: Seq<Option<usize>>, n: usize)
    ensures
        first_bad_role(roles, n) matches Some(role) ==> role >= n && exists|k: int|
            0 <= k < roles.len() && roles[k] == Some(role) && forall|k2: int|
                0 <= k2 < k ==> (#[trigger] roles[k2] matches Some(r) ==> r < n),
    decreases roles.len(),
{
    if roles.len() > 0 {
        let front = roles.drop_last();
        lemma_first_bad_role_sound(front, n);
        if let Some(role) = first_bad_role(front, n) {
            let k = choose|k: int|
                0 <= k < front.len() && front[k] == Some(role) && forall|k2: int|
                    0 <= k2 < k ==> (#[trigger] front[k2] matches Some(r) ==> r < n);
            assert(roles[k] == Some(role));
            assert forall|k2: int| 0 <= k2 < k implies (#[trigger] roles[k2] matches Some(r) ==> r
                < n) by {
                assert(roles[k2] == front[k2]);
            }
        } else if let Some(role) = first_bad_role(roles, n) {
            lemma_first_bad_role_none(front, n);
            let k = roles.len() - 1;
            assert(roles[k] == Some(role));
            assert forall|k2: int| 0 <= k2 < k implies (#[trigger] roles[k2] matches Some(r) ==> r
                < n) by {
                assert(roles[k2] == front[k2]);
            }
        }
    }
}

proof fn lemma_ray_violation_sound(field: Party, index: usize, k: int, ray: RayState)
    requires
        0 <= k <= usize::MAX,
    ensures
        ray_violation(field, index, k, ray) matches Some(v) ==> violation_field(v) == Some(field)
            && violation_ray(v) == Some((index, k as usize)) && ray_fault(ray, v)
            && ray_checked_before(ray, v),
{
}

proof fn lemma_rays_violation_sound(field: Party, index: usize, rays: Seq<RayState>)
    ensures
        rays_violation(field, index, rays) matches Some(v) ==> exists|k: int|
            0 <= k < rays.len() && ray_violation(field, index, k, #[trigger] rays[k]) == Some(v)
                && forall|k2: int| 0 <= k2 < k ==> ray_holds(#[trigger] rays[k2]),
    decreases rays.len(),
{
    if rays.len() > 0 {
        let front = rays.drop_last();
        lemma_rays_violation_sound(field, index, front);
        if let Some(v) = rays_violation(field, index, front) {
            let k = choose|k: int|
                0 <= k < front.len() && ray_violation(field, index, k, #[trigger] front[k]) == Some(
                    v,
                ) && forall|k2: int| 0 <= k2 < k ==> ray_holds(#[trigger] front[k2]);
            assert(rays[k] == front[k]);
            assert forall|k2: int| 0 <= k2 < k implies ray_holds(#[trigger] rays[k2]) by {
                assert(rays[k2] == front[k2]);
            }
        } else if rays_violation(field, index, rays) is Some {
            lemma_rays_violation_none(field, index, front);
            let k = rays.len() - 1;
            assert(rays[k] == rays.last());
            assert forall|k2: int| 0 <= k2 < k implies ray_holds(#[trigger] rays[k2]) by {
                assert(rays[k2] == front[k2]);
            }
        }
    }
}

proof fn lemma_pulses_violation_sound(who: Party, field: FieldState, n: int)
    requires
        0 <= n <= field.pulses@.len(),
    ensures
        pulses_violation(who, field, n) matches Some(v) ==> exists|i: int|
            0 <= i < n && #[trigger] pulse_violation(who, field, i) == Some(v) && forall|j: int|
                0 <= j < i ==> #[trigger] pulse_violation(who, field, j) is None,
    decreases n,
{
    if n > 0 {
        lemma_pulses_violation_sound(who, field, n - 1);
        if pulses_violation(who, field, n - 1) is None {
            lemma_pulses_violation_none(who, field, n - 1);
        }
    }
}

proof fn lemma_pulse_violation_sound(who: Party, field: FieldState, i: int)
    requires
        0 <= i < field.pulses@.len(),
    ensures
        pulse_violation(who, field, i) matches Some(v) ==> violation_field(v) == Some(who)
            && violation_pulse(v) == Some(field.pulses@[i].index) && field_fault(field, v)
            && pulse_checked_before(field, i, v) && !(v is FieldNotFinite) && !(v is FieldOffClock)
            && !(v is OverCap),
{
    let pulses = field.pulses@;
    let p = pulses[i];
    lemma_first_bad_role_sound(p.role_rays@, p.rays.len());
    lemma_rays_violation_sound(who, p.index, p.rays@);
    if let Some(v) = pulse_violation(who, field, i) {
        if i > 0 && p.index <= pulses[i - 1].index {
        } else if p.index >= field.next_index {
        } else if let Some(role) = first_bad_role(p.role_rays@, p.rays.len()) {
            let k = choose|k: int|
                0 <= k < p.role_rays@.len() && p.role_rays@[k] == Some(role) && forall|k2: int|
                    0 <= k2 < k ==> (#[trigger] p.role_rays@[k2] matches Some(r) ==> r
                        < p.rays.len());
            assert(p.role_rays@.contains(Some(role)));
        } else {
            lemma_first_bad_role_none(p.role_rays@, p.rays.len());
            let rays = p.rays@;
            let k = choose|k: int|
                0 <= k < rays.len() && ray_violation(who, p.index, k, #[trigger] rays[k]) == Some(v)
                    && forall|k2: int| 0 <= k2 < k ==> ray_holds(#[trigger] rays[k2]);
            lemma_ray_violation_sound(who, p.index, k, rays[k]);
            assert((k as usize) as int == k);
            assert(ray_fault(rays[k], v));
        }
    }
}

/// The check refuses a run with something that is really wrong with it, and with the first such
/// thing in the order the checks are made: a clock that is not finite is always the answer; an
/// observer's refusal names a number of theirs that is not finite (after every one checked before
/// it); Bob is refused only once Alice's numbers are all finite; a transmission is refused only
/// once both observers pass, Bob's only once Alice's transmission holds, and each one for the
/// first of its clock, its being on the clock, its cap and its pulses that fails; a refusal about a
/// pulse names the first pulse that fails a check, every pulse before it passing every check, and
/// within it the first check that fails - its order, its issue, its roles in order, its rays in
/// order and, within the ray, its numbers, the ring, the clock and the death record in turn.
pub proof fn lemma_check_refuses_the_first_real_fault(state: RunState)
    ensures
        run_violation(state) is Some ==> names_a_fault(state, run_violation(state).unwrap()),
        !finite_bits(state.clock) <==> run_violation(state) == Some(Violation::ClockNotFinite),
        run_violation(state) is Some && run_violation(state).unwrap() is ObserverNotFinite
            ==> finite_bits(state.clock),
        run_violation(state) == Some(Violation::ObserverNotFinite {
            observer: Party::Bob,
            quantity: run_violation(state).unwrap()->quantity,
        }) ==> observer_holds(state.alice),
        run_violation(state) is Some && violation_field(run_violation(state).unwrap()) is Some
            ==> finite_bits(state.clock) && observer_holds(state.alice) && observer_holds(
            state.bob,
        ),
        run_violation(state) is Some && violation_field(run_violation(state).unwrap()) == Some(
            Party::Bob,
        ) ==> field_holds(state.alice_signal),
        run_violation(state) is Some && violation_pulse(run_violation(state).unwrap()) is Some ==> {
            let v = run_violation(state).unwrap();
            let field = party_field(state, violation_field(v).unwrap());
            exists|i: int|
                0 <= i < field.pulses@.len() && (#[trigger] field.pulses@[i]).index
                    == violation_pulse(v).unwrap() && pulse_checked_before(field, i, v) && forall|
                    j: int,
                | 0 <= j < i ==> pulse_passes(field, j)
        },
{
    lemma_field_violation_none(Party::Alice, state.alice_signal);
    if let Some(v) = run_violation(state) {
        if !finite_bits(state.clock) {
        } else if observer_violation(Party::Alice, state.alice) is Some {
        } else if observer_violation(Party::Bob, state.bob) is Some {
        } else {
            let who = if field_violation(Party::Alice, state.alice_signal) is Some {
                Party::Alice
            } else {
                Party::Bob
            };
            let field = party_field(state, who);
            assert(field_violation(who, field) == Some(v));
            if !finite_bits(field.t) {
            } else if field.off_clock {
            } else if field.pulses@.len() > pulse_cap(field) {
            } else {
                let n = field.pulses@.len() as int;
                lemma_pulses_violation_sound(who, field, n);
                let i = choose|i: int|
                    0 <= i < n && #[trigger] pulse_violation(who, field, i) == Some(v) && forall|
                        j: int,
                    | 0 <= j < i ==> #[trigger] pulse_violation(who, field, j) is None;
                lemma_pulse_violation_sound(who, field, i);
                assert forall|j: int| 0 <= j < i implies pulse_passes(field, j) by {
                    assert(pulse_violation(who, field, j) is None);
                    lemma_pulse_violation_none(who, field, j);
                }
                assert(field.pulses@[i].index == violation_pulse(v).unwrap());
            }
        }
    }
}

} // verus!
