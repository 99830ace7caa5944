//! What one observer actually sees of the other: where on the other's worldline the emission
//! event was read from, why there can be nothing to draw, how a sweep of the past cone keeps
//! count and decides why it found nothing, and the order in which a cold solve tries its
//! candidate rays and decides which refusal to report.
//!
//! The rays themselves are integrated by the caller. A cold solve at one event is a short
//! conversation: ask the past-cone sweep for its next dip, refine it, and either keep the image
//! or go on. [`ColdSolve`] is the side of that conversation that decides what to ask next and,
//! when nothing is found, which of the failures it met is the one to report.
use vstd::prelude::*;

use crate::observer::ObserverMode;

verus! {

/// Where on the other observer's worldline the emission event was read from.
#[derive(Debug, Clone, Copy, PartialEq, Eq, Structural)]
pub enum WorldlineSource {
    /// Interpolated between two recorded events of the trail.
    Trail,
    /// Before the release: the hold, continued backwards in closed form.
    Hold,
    /// Before the release: the free-fall worldline itself, continued backwards through the
    /// release event.
    Geodesic,
    /// A Static or ZAMO worldline, carried back analytically at its own constant 4-velocity.
    FixedRadius,
    /// A marker the user is dragging, held at fixed (r, phi).
    Dragged,
}

/// Why there is nothing to draw. Every one of these is a physical statement or an honest limit of
/// the recorded data.
#[derive(Debug, Clone, Copy, PartialEq, Eq, Structural)]
pub enum NoImage {
    /// The focus observer has settled onto the far branch of the Cauchy horizon.
    FocusFrozen,
    /// The focus observer has reached the ring.
    FocusEnded,
    /// The other observer's worldline does not extend to the time the light would have had to
    /// leave.
    OtherEnded,
    /// The stretch of the other's worldline the answer needs has been evicted from their trail.
    TrailEvicted,
    /// Every trial ray was swallowed by the ring or climbed out of the search ceiling.
    RaysDied,
    /// The search found no crossing inside the longest age searched.
    NoCrossing,
    /// A crossing was bracketed but the refinement did not converge.
    NotConverged,
}

/// How many dips of the past-cone sweep a cold solve tries before it gives up.
pub const MAX_COLD_SEEDS: usize = 4;

/// What a cold solve asks for next.
#[derive(Debug, Clone, Copy, PartialEq, Eq, Structural)]
pub enum ColdStep {
    /// Take dip number `skip` of the sweep (in order of increasing age) and refine it.
    Seed(usize),
    /// Stop: nothing was found, and this is why.
    Refused(NoImage),
}

/// The state of a cold solve between two questions: how many dips have been taken, and the
/// refusal it would report if it stopped now.
#[derive(Debug, Clone, Copy, PartialEq, Eq, Structural)]
pub struct ColdSolve {
    pub skip: usize,
    pub refusal: NoImage,
}

impl ColdSolve {
    /// A cold solve that has tried nothing: it asks for the first dip, and would report that no
    /// crossing was found.
    pub fn new() -> (res: (ColdSolve, ColdStep))
        ensures
            res.0 == (ColdSolve { skip: 0, refusal: NoImage::NoCrossing }),
            res.1 == ColdStep::Seed(0),
    {
        (ColdSolve { skip: 0, refusal: NoImage::NoCrossing }, ColdStep::Seed(0))
    }

    /// The dip asked for was found but did not refine, for the reason `why`. That is not a
    /// failure of the search, only of this candidate: `why` becomes the refusal to report, and
    /// the next dip is asked for while any are left.
    pub fn refine_failed(&mut self, why: NoImage) -> (step: ColdStep)
        requires
            old(self).skip < MAX_COLD_SEEDS,
        ensures
            final(self).refusal == why,
            final(self).skip == old(self).skip + 1,
            step == (if final(self).skip < MAX_COLD_SEEDS {
                ColdStep::Seed(final(self).skip)
            } else {
                ColdStep::Refused(why)
            }),
    {
        self.refusal = why;
        self.skip = self.skip + 1;
        if self.skip < MAX_COLD_SEEDS {
            ColdStep::Seed(self.skip)
        } else {
            ColdStep::Refused(why)
        }
    }

    /// The sweep could not produce the dip asked for, for the reason `why`. The search ends. The
    /// reason is reported if this was the first dip, or if it is anything but running out of
    /// crossings; a sweep that merely has no further dip leaves the last refinement's failure as
    /// the answer, that being the more informative of the two.
    pub fn seed_failed(&mut self, why: NoImage) -> (step: ColdStep)
        ensures
            final(self).skip == old(self).skip,
            final(self).refusal == (if old(self).skip == 0 || why != NoImage::NoCrossing {
                why
            } else {
                old(self).refusal
            }),
            step == ColdStep::Refused(final(self).refusal),
    {
        if self.skip == 0 || why != NoImage::NoCrossing {
            self.refusal = why;
        }
        ColdStep::Refused(self.refusal)
    }
}

/// What a past-cone sweep does at the end of one pass over its rays.
#[derive(Debug, Clone, Copy, PartialEq, Eq, Structural)]
pub enum PassEnd {
    /// Step the rays further into the past and take another pass.
    Continue,
    /// Stop sweeping and report what was found.
    Stop,
    /// Stop and refuse outright.
    Refuse(NoImage),
}

/// How a sweep ended, when it found something to hand on: whether the closest approach it saw is
/// handed over as well as the dips, and the refusal that goes with the sweep for a caller asking
/// for a dip it does not have.
#[derive(Debug, Clone, Copy, PartialEq, Eq, Structural)]
pub struct SweepEnd {
    pub keep_closest: bool,
    pub refusal: NoImage,
}

/// The bookkeeping of one sweep of the past cone: how many dips it wants and has found, why the
/// last pass that probed nothing probed nothing, and whether the current pass has probed anything.
/// The rays, their separations and the dips themselves are the caller's.
#[derive(Debug, Clone, Copy, PartialEq, Eq, Structural)]
pub struct SweepTally {
    pub want: usize,
    pub dips: usize,
    pub refusal: Option<NoImage>,
    pub probed: bool,
}

/// What a sweep does at the end of a pass: with no ray left alive it refuses with `RaysDied` if it
/// has no dip and stops otherwise; a pass that probed something clears the remembered refusal; a
/// pass that probed nothing because the trail has been evicted stops, since going further back only
/// asks about a stretch further inside the gap; and the sweep stops at its age limit.
pub open spec fn spec_end_pass(tally: SweepTally, rays_alive: bool, at_limit: bool) -> (
    SweepTally,
    PassEnd,
) {
    if !rays_alive {
        (
            tally,
            if tally.dips == 0 {
                PassEnd::Refuse(NoImage::RaysDied)
            } else {
                PassEnd::Stop
            },
        )
    } else {
        let next = SweepTally {
            refusal: if tally.probed {
                None
            } else {
                tally.refusal
            },
            probed: false,
            ..tally
        };
        if !tally.probed && tally.refusal == Some(NoImage::TrailEvicted) {
            (next, PassEnd::Stop)
        } else if at_limit {
            (next, PassEnd::Stop)
        } else {
            (next, PassEnd::Continue)
        }
    }
}

/// What a sweep hands on: a sweep that found every dip it wanted (at least one) reports those
/// and no closest approach, with `NoCrossing` for a dip it was not asked for; otherwise the refusal is the
/// remembered one, `NoCrossing` if none is remembered, and the sweep refuses with it outright when it
/// found neither a dip nor a closest approach.
pub open spec fn spec_finish(tally: SweepTally, has_closest: bool) -> Result<SweepEnd, NoImage> {
    if tally.dips > 0 && tally.dips >= tally.want {
        Ok(SweepEnd { keep_closest: false, refusal: NoImage::NoCrossing })
    } else {
        let refusal = match tally.refusal {
            Some(why) => why,
            None => NoImage::NoCrossing,
        };
        if tally.dips == 0 && !has_closest {
            Err(refusal)
        } else {
            Ok(SweepEnd { keep_closest: has_closest, refusal })
        }
    }
}

impl SweepTally {
    /// A sweep that wants `want` dips and has found none.
    pub fn new(want: usize) -> (tally: SweepTally)
        ensures
            tally == (SweepTally { want, dips: 0, refusal: None, probed: false }),
    {
        SweepTally { want, dips: 0, refusal: None, probed: false }
    }

    /// A ray could not be probed at this age, for the reason `why`; that is the reason remembered.
    pub fn probe_failed(&mut self, why: NoImage)
        ensures
            *final(self) == (SweepTally { refusal: Some(why), ..*old(self) }),
    {
        self.refusal = Some(why);
    }

    /// A ray was probed at this age.
    pub fn probe_answered(&mut self)
        ensures
            *final(self) == (SweepTally { probed: true, ..*old(self) }),
    {
        self.probed = true;
    }

    /// A probed ray turned round: one more dip. Returns whether the sweep now has every dip it
    /// wanted, in which case it ends at once.
    pub fn dip_found(&mut self) -> (enough: bool)
        requires
            old(self).dips < old(self).want,
        ensures
            *final(self) == (SweepTally { dips: (old(self).dips + 1) as usize, ..*old(self) }),
            enough == (final(self).dips >= final(self).want),
    {
        self.dips = self.dips + 1;
        self.dips >= self.want
    }

    /// The end of a pass: see [`spec_end_pass`]. `rays_alive` is whether any ray is still being
    /// followed, `at_limit` whether the sweep has reached the oldest age it searches.
    pub fn end_pass(&mut self, rays_alive: bool, at_limit: bool) -> (end: PassEnd)
        ensures
            (*final(self), end) == spec_end_pass(*old(self), rays_alive, at_limit),
    {
        if !rays_alive {
            return if self.dips == 0 {
                PassEnd::Refuse(NoImage::RaysDied)
            } else {
                PassEnd::Stop
            };
        }
        let evicted = !self.probed && self.refusal == Some(NoImage::TrailEvicted);
        if self.probed {
            self.refusal = None;
        }
        self.probed = false;
        if evicted || at_limit {
            PassEnd::Stop
        } else {
            PassEnd::Continue
        }
    }

    /// What the sweep hands on: see [`spec_finish`]. `has_closest` is whether it saw a closest
    /// approach at an age above zero.
    pub fn finish(&self, has_closest: bool) -> (end: Result<SweepEnd, NoImage>)
        ensures
            end == spec_finish(*self, has_closest),
            self.dips < self.want && has_closest ==> end == Ok::<SweepEnd, NoImage>(
                SweepEnd { keep_closest: true, refusal: remembered_or_no_crossing(*self) },
            ),
    {
        if self.dips > 0 && self.dips >= self.want {
            return Ok(SweepEnd { keep_closest: false, refusal: NoImage::NoCrossing });
        }
        let refusal = match self.refusal {
            Some(why) => why,
            None => NoImage::NoCrossing,
        };
        if self.dips == 0 && !has_closest {
            Err(refusal)
        } else {
            Ok(SweepEnd { keep_closest: has_closest, refusal })
        }
    }
}

/// The candidate a cold solve refines for its `skip`-th question.
#[derive(Debug, Clone, Copy, PartialEq, Eq, Structural)]
pub enum Candidate {
    /// Dip number `skip` of the sweep.
    Dip(usize),
    /// The sweep's closest approach, for want of any dip.
    Closest,
    /// Nothing to refine, and this is why.
    Refused(NoImage),
}

/// The candidate for the `skip`-th question, from a sweep that found `dips` dips, kept a closest
/// approach or not, and carries `refusal`: the dip if there is one; the closest approach only for
/// the first question and only when there are no dips at all; the sweep's refusal otherwise.
pub open spec fn spec_cold_candidate(skip: usize, dips: usize, has_closest: bool, refusal: NoImage) -> Candidate {
    if skip < dips {
        Candidate::Dip(skip)
    } else if has_closest && skip == 0 && dips == 0 {
        Candidate::Closest
    } else {
        Candidate::Refused(refusal)
    }
}

/// The candidate for the `skip`-th question of a cold solve (see [`spec_cold_candidate`]).
pub fn cold_candidate(skip: usize, dips: usize, has_closest: bool, refusal: NoImage) -> (candidate: Candidate)
    ensures
        candidate == spec_cold_candidate(skip, dips, has_closest, refusal),
        skip < dips ==> candidate == Candidate::Dip(skip),
{
    if skip < dips {
        Candidate::Dip(skip)
    } else if has_closest && skip == 0 && dips == 0 {
        Candidate::Closest
    } else {
        Candidate::Refused(refusal)
    }
}

/// The refusal a sweep carries when it has to give one: the reason it remembers, and `NoCrossing`
/// when it remembers none.
pub open spec fn remembered_or_no_crossing(tally: SweepTally) -> NoImage {
    match tally.refusal {
        Some(why) => why,
        None => NoImage::NoCrossing,
    }
}

/// How a sweep ends. One that found every dip it wanted hands on no closest approach. One short of
/// its dips refuses outright only when it found neither a dip nor a closest approach, and then with
/// the reason it remembers (`NoCrossing` if none); a closest approach it saw is always handed on,
/// with that same reason for a dip it does not have, whatever else it remembers - an evicted trail
/// included.
pub proof fn lemma_sweep_finish(tally: SweepTally, has_closest: bool)
    ensures
        tally.dips >= 1 && tally.dips >= tally.want ==> spec_finish(tally, has_closest) == Ok::<
            SweepEnd,
            NoImage,
        >(SweepEnd { keep_closest: false, refusal: NoImage::NoCrossing }),
        tally.dips < tally.want && has_closest ==> spec_finish(tally, has_closest) == Ok::<
            SweepEnd,
            NoImage,
        >(SweepEnd { keep_closest: true, refusal: remembered_or_no_crossing(tally) }),
        tally.dips < tally.want && tally.dips >= 1 ==> spec_finish(tally, has_closest) == Ok::<
            SweepEnd,
            NoImage,
        >(SweepEnd { keep_closest: has_closest, refusal: remembered_or_no_crossing(tally) }),
        tally.dips == 0 && !has_closest ==> spec_finish(tally, has_closest) == Err::<
            SweepEnd,
            NoImage,
        >(remembered_or_no_crossing(tally)),
        tally.dips == 0 && has_closest ==> spec_finish(tally, has_closest) == Ok::<
            SweepEnd,
            NoImage,
        >(SweepEnd { keep_closest: true, refusal: remembered_or_no_crossing(tally) }),
        spec_finish(tally, has_closest) is Err <==> tally.dips == 0 && !has_closest,
        has_closest ==> spec_finish(tally, has_closest) is Ok,
{
}

/// How a pass ends. With no ray left alive the tally is left as it is and the sweep refuses with
/// `RaysDied` exactly when it has no dip, and stops otherwise. With rays alive it never refuses:
/// the next pass starts unprobed with the same dips, the remembered reason is cleared exactly when
/// this pass probed something, and the sweep stops exactly when it is at its age limit or this
/// pass probed nothing because the trail has been evicted.
pub proof fn lemma_sweep_pass(tally: SweepTally, rays_alive: bool, at_limit: bool)
    ensures
        ({
            let (next, end) = spec_end_pass(tally, rays_alive, at_limit);
            &&& !rays_alive ==> next == tally
            &&& !rays_alive ==> (end == PassEnd::Refuse(NoImage::RaysDied) <==> tally.dips == 0)
            &&& !rays_alive ==> (end == PassEnd::Stop <==> tally.dips > 0)
            &&& rays_alive ==> end !is Refuse
            &&& rays_alive ==> next.want == tally.want && next.dips == tally.dips && !next.probed
            &&& rays_alive ==> next.refusal == (if tally.probed {
                None
            } else {
                tally.refusal
            })
            &&& rays_alive ==> (end == PassEnd::Stop <==> at_limit || (!tally.probed
                && tally.refusal == Some(NoImage::TrailEvicted)))
        }),
{
}

/// The candidate for a question: whenever the sweep holds the dip asked for, that dip, for every
/// question; the closest approach exactly for the first question of a sweep with no dip that saw
/// one; and otherwise the sweep's refusal.
pub proof fn lemma_cold_candidate(skip: usize, dips: usize, has_closest: bool, refusal: NoImage)
    ensures
        skip < dips ==> spec_cold_candidate(skip, dips, has_closest, refusal) == Candidate::Dip(
            skip,
        ),
        (spec_cold_candidate(skip, dips, has_closest, refusal) == Candidate::Closest) <==> (skip
            == 0 && dips == 0 && has_closest),
        spec_cold_candidate(skip, dips, has_closest, refusal) is Dip <==> skip < dips,
        skip >= dips && !(skip == 0 && has_closest) ==> spec_cold_candidate(
            skip,
            dips,
            has_closest,
            refusal,
        ) == Candidate::Refused(refusal),
{
}

/// Only the first candidate may fall back to the closest approach, and only when the sweep found
/// no dip: the fallback is one point and not a list. A sweep whose every ray died before a single
/// dip refuses with `RaysDied`. A sweep that ends with no dip and no closest approach refuses,
/// with `NoCrossing` unless it remembers a reason; and a pass that probed something forgets any
/// earlier reason.
pub proof fn lemma_sweep_refusals(
    tally: SweepTally,
    rays_alive: bool,
    at_limit: bool,
    skip: usize,
    has_closest: bool,
    refusal: NoImage,
)
    ensures
        spec_cold_candidate(skip, tally.dips, has_closest, refusal) == Candidate::Closest ==> skip
            == 0 && tally.dips == 0,
        skip > 0 && skip >= tally.dips ==> spec_cold_candidate(skip, tally.dips, has_closest, refusal)
            == Candidate::Refused(refusal),
        !rays_alive && tally.dips == 0 ==> spec_end_pass(tally, rays_alive, at_limit).1
            == PassEnd::Refuse(NoImage::RaysDied),
        tally.dips < tally.want && tally.dips == 0 && !has_closest && tally.refusal is None
            ==> spec_finish(tally, has_closest) == Err::<SweepEnd, NoImage>(NoImage::NoCrossing),
        rays_alive && tally.probed ==> spec_end_pass(tally, rays_alive, at_limit).0.refusal is None,
{
}

/// Where a time sits against what is known of the other observer's worldline. The four facts are
/// comparisons of coordinate times, made by the caller.
#[derive(Debug, Clone, Copy, PartialEq, Eq, Structural)]
pub struct Reading {
    /// The time is before the other observer's release.
    pub before_release: bool,
    /// The free-fall worldline continued backwards through the release event reaches the time
    /// (only ever so for a release that arrives already moving, released at creation).
    pub backwards_geodesic: bool,
    /// The time is past the clock the other observer has been stepped to.
    pub past_the_clock: bool,
    /// The time is older than the oldest event the other observer's trail still holds.
    pub before_trail: bool,
}

/// Where the other observer's event at a time is read from, given the mode they are actually
/// following: before the release, the backwards geodesic where it applies (free fall only) and the
/// hold otherwise; past their clock, nothing; after that the same case split the stepping makes -
/// a dragged marker where it stands, a fixed-radius worldline in closed form, and a free fall off
/// its trail, unless the trail no longer reaches back that far.
pub open spec fn spec_worldline_source(mode: ObserverMode, at: Reading) -> Result<
    WorldlineSource,
    NoImage,
> {
    if at.before_release {
        if mode == ObserverMode::FreeFall && at.backwards_geodesic {
            Ok(WorldlineSource::Geodesic)
        } else {
            Ok(WorldlineSource::Hold)
        }
    } else if at.past_the_clock {
        Err(NoImage::OtherEnded)
    } else {
        match mode {
            ObserverMode::ManualDrag => Ok(WorldlineSource::Dragged),
            ObserverMode::Static | ObserverMode::Zamo => Ok(WorldlineSource::FixedRadius),
            ObserverMode::FreeFall => if at.before_trail {
                Err(NoImage::TrailEvicted)
            } else {
                Ok(WorldlineSource::Trail)
            },
        }
    }
}

/// Where the other observer's event at a time is read from, or why it cannot be read. `mode` is
/// the mode the other observer is actually following (their effective mode).
pub fn worldline_source(mode: ObserverMode, at: Reading) -> (source: Result<
    WorldlineSource,
    NoImage,
>)
    ensures
        source == spec_worldline_source(mode, at),
        !at.before_release && at.past_the_clock ==> source == Err::<WorldlineSource, NoImage>(
            NoImage::OtherEnded,
        ),
{
    if at.before_release {
        if mode == ObserverMode::FreeFall && at.backwards_geodesic {
            Ok(WorldlineSource::Geodesic)
        } else {
            Ok(WorldlineSource::Hold)
        }
    } else if at.past_the_clock {
        Err(NoImage::OtherEnded)
    } else {
        match mode {
            ObserverMode::ManualDrag => Ok(WorldlineSource::Dragged),
            ObserverMode::Static | ObserverMode::Zamo => Ok(WorldlineSource::FixedRadius),
            ObserverMode::FreeFall => if at.before_trail {
                Err(NoImage::TrailEvicted)
            } else {
                Ok(WorldlineSource::Trail)
            },
        }
    }
}

/// The worldline read is the worldline stepped: after the release a trail is read only for free
/// fall, a closed form only for a fixed-radius mode and a held position only for a drag; the
/// backwards geodesic is read only for free fall and only before the release; and the hold can
/// always answer before the release, so nothing before the release is refused.
pub proof fn lemma_source_follows_the_mode(mode: ObserverMode, at: Reading)
    ensures
        spec_worldline_source(mode, at) == Ok::<WorldlineSource, NoImage>(WorldlineSource::Trail)
            ==> mode == ObserverMode::FreeFall && !at.before_release,
        spec_worldline_source(mode, at) == Ok::<WorldlineSource, NoImage>(
            WorldlineSource::FixedRadius,
        ) ==> (mode == ObserverMode::Static || mode == ObserverMode::Zamo) && !at.before_release,
        spec_worldline_source(mode, at) == Ok::<WorldlineSource, NoImage>(WorldlineSource::Dragged)
            ==> mode == ObserverMode::ManualDrag && !at.before_release,
        spec_worldline_source(mode, at) == Ok::<WorldlineSource, NoImage>(
            WorldlineSource::Geodesic,
        ) ==> mode == ObserverMode::FreeFall && at.before_release,
        at.before_release ==> spec_worldline_source(mode, at) is Ok,
        spec_worldline_source(mode, at) == Err::<WorldlineSource, NoImage>(NoImage::TrailEvicted)
            ==> mode == ObserverMode::FreeFall,
{
}

/// The other observer is read past their clock in no mode: after the release a time past their
/// clock is `OtherEnded` whatever they follow. Before the release a reading always answers, from
/// the backwards geodesic exactly for a free fall that reaches back, and from the hold otherwise.
/// After the release and within the clock a drag is read where it stands, a fixed-radius mode in
/// closed form, and a free fall off its trail, or `TrailEvicted` exactly when the trail no longer
/// reaches back.
pub proof fn lemma_reading_the_other(mode: ObserverMode, at: Reading)
    ensures
        !at.before_release && at.past_the_clock ==> spec_worldline_source(mode, at) == Err::<
            WorldlineSource,
            NoImage,
        >(NoImage::OtherEnded),
        at.before_release ==> spec_worldline_source(mode, at) == Ok::<WorldlineSource, NoImage>(
            if mode == ObserverMode::FreeFall && at.backwards_geodesic {
                WorldlineSource::Geodesic
            } else {
                WorldlineSource::Hold
            },
        ),
        !at.before_release && !at.past_the_clock && mode == ObserverMode::ManualDrag
            ==> spec_worldline_source(mode, at) == Ok::<WorldlineSource, NoImage>(
            WorldlineSource::Dragged,
        ),
        !at.before_release && !at.past_the_clock && (mode == ObserverMode::Static || mode
            == ObserverMode::Zamo) ==> spec_worldline_source(mode, at) == Ok::<
            WorldlineSource,
            NoImage,
        >(WorldlineSource::FixedRadius),
        !at.before_release && !at.past_the_clock && mode == ObserverMode::FreeFall
            ==> spec_worldline_source(mode, at) == (if at.before_trail {
            Err::<WorldlineSource, NoImage>(NoImage::TrailEvicted)
        } else {
            Ok::<WorldlineSource, NoImage>(WorldlineSource::Trail)
        }),
        spec_worldline_source(mode, at) == Err::<WorldlineSource, NoImage>(NoImage::OtherEnded)
            <==> !at.before_release && at.past_the_clock,
{
}

} // verus!
