//! What kind of worldline an observer is on, and which of the local rest frames a speed can be
//! quoted against exist where they stand.
//!
//! Whether a static observer or a ZAMO exists at an event is a statement about the metric there
//! (d/dt timelike, i.e. g_tt < 0 on the equator, for the first; r outside the outer horizon for
//! the second). Those two facts are read off the geometry by the caller and handed in as a
//! [`LocalFrames`]; everything that is *decided* from them - which mode an observer is actually
//! following, which frames a speed is quoted against - is decided here.
use vstd::prelude::*;

verus! {

/// A local observer that another observer's speed can be quoted against, in the order of how far
/// in they survive.
#[derive(Debug, Clone, Copy, PartialEq, Eq, Structural)]
pub enum LocalRestFrame {
    /// The static observer: fixed r and fixed phi. Exists only outside the equatorial static
    /// limit r = 2M.
    Static,
    /// The zero-angular-momentum observer, holding r while being swept round at the local dragging
    /// rate. Exists down to the outer horizon r+.
    Zamo,
    /// The raindrop: the E = 1, L = 0 ingoing geodesic. Exists at every r > 0.
    Raindrop,
}

/// How an observer's worldline is generated.
#[derive(Debug, Clone, Copy, PartialEq, Eq, Structural)]
pub enum ObserverMode {
    /// Timelike geodesic: ingoing free fall with conserved energy E and angular momentum L.
    /// Exists everywhere in the equatorial plane.
    FreeFall,
    /// Worldline positioned by the user's mouse, as a boost of the local raindrop frame. Exists
    /// everywhere, the raindrop frame being defined at every r > 0.
    ManualDrag,
    /// Static observer: fixed r and fixed phi. Exists only where a static observer does.
    Static,
    /// Zero-angular-momentum observer: fixed r, swept round by frame dragging. Exists only where a
    /// ZAMO does.
    Zamo,
}

/// How an observer's fall is released, which is what fixes their energy.
#[derive(Debug, Clone, Copy, PartialEq, Eq, Structural)]
pub enum Release {
    /// At rest at the radius they are dropped from: the worldline starts on a turning point.
    AtRest,
    /// From rest at infinity: E = 1, the raindrop.
    FromInfinity,
    /// On the circular geodesic at the drop radius, in the sense of the hole's spin.
    CircularPrograde,
    /// The same, against the spin.
    CircularRetrograde,
}

impl Release {
    /// Whether this release is one of the two circular orbits, and if so which sense:
    /// `Some(true)` for prograde, `Some(false)` for retrograde, `None` for the other two.
    pub fn circular_sense(self) -> (sense: Option<bool>)
        ensures
            sense == match self {
                Release::CircularPrograde => Some(true),
                Release::CircularRetrograde => Some(false),
                Release::AtRest | Release::FromInfinity => None::<bool>,
            },
    {
        match self {
            Release::CircularPrograde => Some(true),
            Release::CircularRetrograde => Some(false),
            Release::AtRest | Release::FromInfinity => None,
        }
    }
}

/// Which of the two hovering observers exist at one event. The raindrop exists everywhere and is
/// not recorded.
#[derive(Debug, Clone, Copy, PartialEq, Eq, Structural)]
pub struct LocalFrames {
    /// A static observer exists here: the time-translation Killing vector is timelike.
    pub static_exists: bool,
    /// A ZAMO exists here: a worldline of fixed r is timelike, i.e. the event is outside r+.
    pub zamo_exists: bool,
}

impl LocalFrames {
    /// Whether a local observer of `frame` exists at this event.
    pub open spec fn has(self, frame: LocalRestFrame) -> bool {
        match frame {
            LocalRestFrame::Static => self.static_exists,
            LocalRestFrame::Zamo => self.zamo_exists,
            LocalRestFrame::Raindrop => true,
        }
    }

    /// The frames a speed is quoted against here, outermost first: the static observer and the
    /// ZAMO where each exists, and the raindrop alone where neither does.
    pub open spec fn spec_quoted(self) -> Seq<LocalRestFrame> {
        let hovering = (if self.static_exists {
            seq![LocalRestFrame::Static]
        } else {
            Seq::empty()
        }) + (if self.zamo_exists {
            seq![LocalRestFrame::Zamo]
        } else {
            Seq::empty()
        });
        if hovering.len() == 0 {
            seq![LocalRestFrame::Raindrop]
        } else {
            hovering
        }
    }

    /// Whether a local observer of `frame` exists at this event.
    pub fn has_frame(&self, frame: LocalRestFrame) -> (b: bool)
        ensures
            b == self.has(frame),
            frame == LocalRestFrame::Static ==> (b <==> self.static_exists),
            frame == LocalRestFrame::Zamo ==> (b <==> self.zamo_exists),
            frame == LocalRestFrame::Raindrop ==> b,
    {
        match frame {
            LocalRestFrame::Static => self.static_exists,
            LocalRestFrame::Zamo => self.zamo_exists,
            LocalRestFrame::Raindrop => true,
        }
    }

    /// Every local observer at this event who can measure a speed, outermost frame first: both
    /// hovering frames where they exist, and the raindrop only where neither does.
    pub fn local_speeds(&self) -> (frames: Vec<LocalRestFrame>)
        ensures
            frames@ == self.spec_quoted(),
    {
        let mut frames: Vec<LocalRestFrame> = Vec::new();
        if self.static_exists {
            frames.push(LocalRestFrame::Static);
        }
        if self.zamo_exists {
            frames.push(LocalRestFrame::Zamo);
        }
        if frames.len() == 0 {
            frames.push(LocalRestFrame::Raindrop);
        }
        assert(frames@ == self.spec_quoted());
        frames
    }
}

impl ObserverMode {
    /// Whether this mode can exist at an event with these local frames: a static observer needs
    /// the static frame, a ZAMO needs the ZAMO frame, free fall and manual drag exist everywhere.
    pub open spec fn admissible_in(self, frames: LocalFrames) -> bool {
        match self {
            ObserverMode::Static => frames.static_exists,
            ObserverMode::Zamo => frames.zamo_exists,
            ObserverMode::FreeFall | ObserverMode::ManualDrag => true,
        }
    }

    /// The mode actually followed: the selected one where it is admissible, free fall where not.
    pub open spec fn effective_in(self, frames: LocalFrames) -> ObserverMode {
        if self.admissible_in(frames) {
            self
        } else {
            ObserverMode::FreeFall
        }
    }

    /// Can this mode exist at an event with these local frames?
    pub fn mode_admissible(self, frames: LocalFrames) -> (ok: bool)
        ensures
            ok == self.admissible_in(frames),
            self == ObserverMode::Static ==> (ok <==> frames.static_exists),
            self == ObserverMode::Zamo ==> (ok <==> frames.zamo_exists),
            self == ObserverMode::FreeFall || self == ObserverMode::ManualDrag ==> ok,
    {
        match self {
            ObserverMode::Static => frames.static_exists,
            ObserverMode::Zamo => frames.zamo_exists,
            ObserverMode::FreeFall | ObserverMode::ManualDrag => true,
        }
    }

    /// The mode an observer who selected this one is actually following at an event with these
    /// local frames: the selection where it is admissible, and free fall where it is not. The
    /// selection itself is left as it is, so it resumes by itself where it exists again.
    pub fn effective_mode(self, frames: LocalFrames) -> (mode: ObserverMode)
        ensures
            mode == self.effective_in(frames),
            self == ObserverMode::Static ==> mode == (if frames.static_exists {
                ObserverMode::Static
            } else {
                ObserverMode::FreeFall
            }),
            self == ObserverMode::Zamo ==> mode == (if frames.zamo_exists {
                ObserverMode::Zamo
            } else {
                ObserverMode::FreeFall
            }),
            self == ObserverMode::FreeFall || self == ObserverMode::ManualDrag ==> mode == self,
    {
        if self.mode_admissible(frames) {
            self
        } else {
            ObserverMode::FreeFall
        }
    }
}

/// The mode an observer actually follows is always one that exists where they stand, it is the
/// selected mode exactly when that one exists there, and asking again changes nothing.
pub proof fn lemma_effective_mode_is_admissible(mode: ObserverMode, frames: LocalFrames)
    ensures
        mode.effective_in(frames).admissible_in(frames),
        (mode.effective_in(frames) == mode) <==> mode.admissible_in(frames),
        mode.effective_in(frames).effective_in(frames) == mode.effective_in(frames),
        mode.effective_in(frames) == mode || mode.effective_in(frames) == ObserverMode::FreeFall,
{
}

/// Free fall and manual drag exist at every event, and a fixed-radius mode exists exactly where
/// the local observer of the same name does, so a mode that is admissible is one a speed can be
/// quoted against.
pub proof fn lemma_modes_and_frames_agree(frames: LocalFrames)
    ensures
        ObserverMode::FreeFall.admissible_in(frames),
        ObserverMode::ManualDrag.admissible_in(frames),
        ObserverMode::Static.admissible_in(frames) == frames.has(LocalRestFrame::Static),
        ObserverMode::Zamo.admissible_in(frames) == frames.has(LocalRestFrame::Zamo),
{
}

/// A hovering observer can only hover where somebody can: a Static selection is followed exactly
/// where a static observer exists and a ZAMO selection exactly where a ZAMO exists, and anywhere
/// else the observer falls freely; free fall and a drag are followed everywhere. The raindrop is
/// defined at every event, and each hovering frame exactly where its observer exists.
pub proof fn lemma_a_hover_needs_its_frame(frames: LocalFrames)
    ensures
        ObserverMode::Static.admissible_in(frames) <==> frames.static_exists,
        ObserverMode::Zamo.admissible_in(frames) <==> frames.zamo_exists,
        frames.has(LocalRestFrame::Static) <==> frames.static_exists,
        frames.has(LocalRestFrame::Zamo) <==> frames.zamo_exists,
        frames.has(LocalRestFrame::Raindrop),
        !frames.static_exists ==> ObserverMode::Static.effective_in(frames)
            == ObserverMode::FreeFall,
        frames.static_exists ==> ObserverMode::Static.effective_in(frames) == ObserverMode::Static,
        !frames.zamo_exists ==> ObserverMode::Zamo.effective_in(frames) == ObserverMode::FreeFall,
        frames.zamo_exists ==> ObserverMode::Zamo.effective_in(frames) == ObserverMode::Zamo,
        ObserverMode::FreeFall.effective_in(frames) == ObserverMode::FreeFall,
        ObserverMode::ManualDrag.effective_in(frames) == ObserverMode::ManualDrag,
{
}

/// A speed can always be quoted against somebody: the list is never empty, holds only frames that
/// exist, holds no frame twice, and names the raindrop exactly when no hovering frame exists.
pub proof fn lemma_quoted_frames(frames: LocalFrames)
    ensures
        frames.spec_quoted().len() >= 1,
        forall|i: int|
            0 <= i < frames.spec_quoted().len() ==> frames.has(#[trigger] frames.spec_quoted()[i]),
        forall|i: int, j: int|
            0 <= i < j < frames.spec_quoted().len() ==> frames.spec_quoted()[i]
                != frames.spec_quoted()[j],
        frames.spec_quoted().contains(LocalRestFrame::Raindrop) <==> (!frames.static_exists
            && !frames.zamo_exists),
        frames.spec_quoted().contains(LocalRestFrame::Static) <==> frames.static_exists,
        frames.spec_quoted().contains(LocalRestFrame::Zamo) <==> frames.zamo_exists,
        frames.static_exists ==> frames.spec_quoted()[0] == LocalRestFrame::Static,
        frames.spec_quoted().len() == (if frames.static_exists && frames.zamo_exists {
            2int
        } else {
            1int
        }),
{
    let q = frames.spec_quoted();
    if frames.static_exists && frames.zamo_exists {
        assert(q =~= seq![LocalRestFrame::Static, LocalRestFrame::Zamo]);
        assert(q[0] == LocalRestFrame::Static);
        assert(q[1] == LocalRestFrame::Zamo);
    } else if frames.static_exists {
        assert(q =~= seq![LocalRestFrame::Static]);
        assert(q[0] == LocalRestFrame::Static);
    } else if frames.zamo_exists {
        assert(q =~= seq![LocalRestFrame::Zamo]);
        assert(q[0] == LocalRestFrame::Zamo);
    } else {
        assert(q =~= seq![LocalRestFrame::Raindrop]);
        assert(q[0] == LocalRestFrame::Raindrop);
    }
}

/// What one released step does to a worldline, by the mode it is actually following.
#[derive(Debug, Clone, Copy, PartialEq, Eq, Structural)]
pub enum Advance {
    /// Frozen onto the far branch of r-: r and tau stay, t climbs and phi winds along the
    /// surface's own generators. The event is recorded on the trail.
    Carried,
    /// Free fall above the ring: the geodesic is integrated over the step. The event is recorded.
    Integrated,
    /// Free fall that has reached the ring: nothing moves.
    Stopped,
    /// A dragged marker: its coordinate time follows the clock and nothing else moves.
    ClockOnly,
    /// A static observer or a ZAMO: carried along its constant 4-velocity in closed form.
    FixedRadius,
}

/// What one step of the simulation clock does to an observer.
#[derive(Debug, Clone, Copy, PartialEq, Eq, Structural)]
pub enum Step {
    /// The clock is still before the release: the observer holds their radius.
    Hover,
    /// A released step. `from_release` is set on the step that crosses the release of a
    /// free-faller, whose fall is integrated from the release event rather than over the whole
    /// step.
    Advance { advance: Advance, from_release: bool },
}

/// What a released step does, by the mode actually followed, whether the geodesic has frozen onto
/// r-, and whether the worldline is still above the ring.
pub open spec fn spec_advance(effective: ObserverMode, stalled: bool, above_ring: bool) -> Advance {
    match effective {
        ObserverMode::FreeFall => if stalled {
            Advance::Carried
        } else if above_ring {
            Advance::Integrated
        } else {
            Advance::Stopped
        },
        ObserverMode::ManualDrag => Advance::ClockOnly,
        ObserverMode::Static | ObserverMode::Zamo => Advance::FixedRadius,
    }
}

/// Whether a released step of this kind records the new event on the trail.
pub open spec fn records(advance: Advance) -> bool {
    advance == Advance::Carried || advance == Advance::Integrated
}

/// What a released step does to a worldline (see [`Advance`]).
pub fn advance_kind(effective: ObserverMode, stalled: bool, above_ring: bool) -> (advance: Advance)
    ensures
        advance == spec_advance(effective, stalled, above_ring),
{
    match effective {
        ObserverMode::FreeFall => if stalled {
            Advance::Carried
        } else if above_ring {
            Advance::Integrated
        } else {
            Advance::Stopped
        },
        ObserverMode::ManualDrag => Advance::ClockOnly,
        ObserverMode::Static | ObserverMode::Zamo => Advance::FixedRadius,
    }
}

/// What a step of the clock does to an observer, and whether they are active (released) after it:
/// before the release they hover and are not; otherwise they are, the step advances them by the
/// mode they actually follow, and a free-faller who was not active yet starts from the release.
pub fn plan_step(
    before_release: bool,
    is_active: bool,
    effective: ObserverMode,
    stalled: bool,
    above_ring: bool,
) -> (plan: (Step, bool))
    ensures
        plan == spec_plan_step(before_release, is_active, effective, stalled, above_ring),
{
    if before_release {
        return (Step::Hover, false);
    }
    let releasing = !is_active && effective == ObserverMode::FreeFall;
    (Step::Advance { advance: advance_kind(effective, stalled, above_ring), from_release: releasing }, true)
}

/// How a worldline is put back where it stood at an earlier clock reading.
#[derive(Debug, Clone, Copy, PartialEq, Eq, Structural)]
pub enum Rewind {
    /// The target is not earlier than the observer's clock: nothing to undo.
    Stay,
    /// The target is before the release: back onto the hover.
    IntoHover,
    /// Free fall: drop the recorded events after the target, stand on the last one kept and
    /// integrate the rest of the way.
    AlongTrail,
    /// A static observer or a ZAMO: take back in closed form what the forward steps added.
    FixedRadius,
    /// A dragged marker: only its clock is set back.
    ClockOnly,
}

/// How a worldline is wound back to an earlier clock reading, by the same case split a step
/// makes.
pub open spec fn spec_rewind(not_earlier: bool, before_release: bool, effective: ObserverMode) -> Rewind {
    if not_earlier {
        Rewind::Stay
    } else if before_release {
        Rewind::IntoHover
    } else {
        match effective {
            ObserverMode::FreeFall => Rewind::AlongTrail,
            ObserverMode::Static | ObserverMode::Zamo => Rewind::FixedRadius,
            ObserverMode::ManualDrag => Rewind::ClockOnly,
        }
    }
}

/// Whether an observer is active (released) after a rewind of this kind: unchanged when nothing is
/// undone, waiting again after a rewind into the hover, and released after any other.
pub open spec fn active_after_rewind(rewind: Rewind, was_active: bool) -> bool {
    match rewind {
        Rewind::Stay => was_active,
        Rewind::IntoHover => false,
        _ => true,
    }
}

/// How a worldline is wound back, and whether the observer is active after it.
pub open spec fn spec_plan_rewind(
    not_earlier: bool,
    before_release: bool,
    is_active: bool,
    effective: ObserverMode,
) -> (Rewind, bool) {
    let rewind = spec_rewind(not_earlier, before_release, effective);
    (rewind, active_after_rewind(rewind, is_active))
}

/// How a worldline is wound back, and whether the observer is active after it: `not_earlier` is
/// whether the target is at or after the observer's own clock, `before_release` whether it is
/// before their release, `is_active` whether they are released now.
pub fn plan_rewind(not_earlier: bool, before_release: bool, is_active: bool, effective: ObserverMode) -> (plan: (
    Rewind,
    bool,
))
    ensures
        plan == spec_plan_rewind(not_earlier, before_release, is_active, effective),
{
    if not_earlier {
        (Rewind::Stay, is_active)
    } else if before_release {
        (Rewind::IntoHover, false)
    } else {
        match effective {
            ObserverMode::FreeFall => (Rewind::AlongTrail, true),
            ObserverMode::Static | ObserverMode::Zamo => (Rewind::FixedRadius, true),
            ObserverMode::ManualDrag => (Rewind::ClockOnly, true),
        }
    }
}

/// A rewind leaves the observer as active as a step to the same clock reading would: a rewind to
/// before the release leaves them waiting, as a step before the release does, and a rewind that
/// lands after the release leaves them released, as every step after the release does.
pub proof fn lemma_rewind_activation_matches_the_step(
    is_active: bool,
    before_release: bool,
    effective: ObserverMode,
    stalled: bool,
    above_ring: bool,
)
    ensures
        spec_plan_rewind(false, before_release, is_active, effective).1 == spec_plan_step(
            before_release,
            is_active,
            effective,
            stalled,
            above_ring,
        ).1,
        spec_plan_rewind(true, before_release, is_active, effective).1 == is_active,
{
}

/// A rewind winds a worldline back the way the steps moved it forward: along the trail exactly
/// when a step integrates or carries a free fall (or stops it at the ring), in closed form exactly
/// when a step moves it in closed form, and by the clock alone exactly when a step moves only the
/// clock; and only the integrating and carrying steps record events for the trail rewind to find.
pub proof fn lemma_rewind_undoes_the_step_by_the_same_case(
    effective: ObserverMode,
    stalled: bool,
    above_ring: bool,
)
    ensures
        (spec_rewind(false, false, effective) == Rewind::AlongTrail) <==> (spec_advance(
            effective,
            stalled,
            above_ring,
        ) == Advance::Carried || spec_advance(effective, stalled, above_ring)
            == Advance::Integrated || spec_advance(effective, stalled, above_ring)
            == Advance::Stopped),
        (spec_rewind(false, false, effective) == Rewind::FixedRadius) <==> (spec_advance(
            effective,
            stalled,
            above_ring,
        ) == Advance::FixedRadius),
        (spec_rewind(false, false, effective) == Rewind::ClockOnly) <==> (spec_advance(
            effective,
            stalled,
            above_ring,
        ) == Advance::ClockOnly),
        records(spec_advance(effective, stalled, above_ring)) ==> effective
            == ObserverMode::FreeFall,
{
}

/// What a step of the clock does to an observer, and whether they are active after it.
pub open spec fn spec_plan_step(
    before_release: bool,
    is_active: bool,
    effective: ObserverMode,
    stalled: bool,
    above_ring: bool,
) -> (Step, bool) {
    if before_release {
        (Step::Hover, false)
    } else {
        (
            Step::Advance {
                advance: spec_advance(effective, stalled, above_ring),
                from_release: !is_active && effective == ObserverMode::FreeFall,
            },
            true,
        )
    }
}

/// A free fall that has reached the ring without freezing does not move and records nothing, and
/// only the first released step of a free-faller starts from the release event: once a step has
/// been taken past the release, the next one covers its whole interval.
pub proof fn lemma_release_happens_once(
    is_active: bool,
    effective: ObserverMode,
    stalled: bool,
    above_ring: bool,
    next_effective: ObserverMode,
    next_stalled: bool,
    next_above_ring: bool,
)
    ensures
        spec_advance(ObserverMode::FreeFall, false, false) == Advance::Stopped,
        !records(Advance::Stopped),
        ({
            let (_, active_after) = spec_plan_step(false, is_active, effective, stalled, above_ring);
            let (next, _) = spec_plan_step(
                false,
                active_after,
                next_effective,
                next_stalled,
                next_above_ring,
            );
            next matches Step::Advance { from_release, .. } && !from_release
        }),
{
}

/// What a released step does is decided by the mode actually followed alone, except for a free
/// fall: a frozen free fall is carried along r-, one above the ring is integrated and one at the
/// ring stops; a drag moves only the clock and a hover at fixed radius moves in closed form. Only
/// a free fall that is frozen or still above the ring records an event.
pub proof fn lemma_advance_by_mode(effective: ObserverMode, stalled: bool, above_ring: bool)
    ensures
        spec_advance(effective, stalled, above_ring) == Advance::Carried <==> effective
            == ObserverMode::FreeFall && stalled,
        spec_advance(effective, stalled, above_ring) == Advance::Integrated <==> effective
            == ObserverMode::FreeFall && !stalled && above_ring,
        spec_advance(effective, stalled, above_ring) == Advance::Stopped <==> effective
            == ObserverMode::FreeFall && !stalled && !above_ring,
        spec_advance(effective, stalled, above_ring) == Advance::ClockOnly <==> effective
            == ObserverMode::ManualDrag,
        spec_advance(effective, stalled, above_ring) == Advance::FixedRadius <==> (effective
            == ObserverMode::Static || effective == ObserverMode::Zamo),
        records(spec_advance(effective, stalled, above_ring)) <==> effective
            == ObserverMode::FreeFall && (stalled || above_ring),
{
}

/// A step hovers exactly when the clock is before the release, and leaves the observer active
/// exactly when it does not hover; a step past the release advances by the mode actually
/// followed, and starts from the release event exactly when it is the first active step of a
/// free-faller.
pub proof fn lemma_step_cases(
    before_release: bool,
    is_active: bool,
    effective: ObserverMode,
    stalled: bool,
    above_ring: bool,
)
    ensures
        ({
            let (step, active) = spec_plan_step(
                before_release,
                is_active,
                effective,
                stalled,
                above_ring,
            );
            &&& (step == Step::Hover) <==> before_release
            &&& active <==> !before_release
            &&& !before_release ==> step == Step::Advance {
                advance: spec_advance(effective, stalled, above_ring),
                from_release: !is_active && effective == ObserverMode::FreeFall,
            }
        }),
{
}

/// A rewind undoes nothing exactly when the target is not earlier than the clock; otherwise it
/// goes back onto the hover exactly when the target is before the release, and after the release
/// it goes along the trail exactly for a free fall, in closed form exactly for a fixed-radius mode
/// and by the clock alone exactly for a drag. Afterwards the observer is as active as before when
/// nothing was undone, and otherwise active exactly when the target is after the release.
pub proof fn lemma_rewind_cases(
    not_earlier: bool,
    before_release: bool,
    is_active: bool,
    effective: ObserverMode,
)
    ensures
        ({
            let (rewind, active) = spec_plan_rewind(
                not_earlier,
                before_release,
                is_active,
                effective,
            );
            &&& (rewind == Rewind::Stay) <==> not_earlier
            &&& (rewind == Rewind::IntoHover) <==> !not_earlier && before_release
            &&& (rewind == Rewind::AlongTrail) <==> !not_earlier && !before_release && effective
                == ObserverMode::FreeFall
            &&& (rewind == Rewind::FixedRadius) <==> !not_earlier && !before_release && (effective
                == ObserverMode::Static || effective == ObserverMode::Zamo)
            &&& (rewind == Rewind::ClockOnly) <==> !not_earlier && !before_release && effective
                == ObserverMode::ManualDrag
            &&& active == (if not_earlier {
                is_active
            } else {
                !before_release
            })
        }),
{
}

} // verus!
