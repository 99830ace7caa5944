//! The recorded worldline of an observer: one entry per step taken, oldest first, ending on the
//! observer's current event, with the oldest entries dropped once a cap is passed.
//!
//! The entries themselves (an event's coordinates, its proper time and 4-velocity) are the
//! caller's; what is kept here is the order, the cap and the rules a rewind keeps by, which are
//! the same whatever an entry holds.
use vstd::prelude::*;

verus! {

/// Entries kept for a moving worldline.
pub const TRAIL_MAX_POINTS: usize = 800;

/// Entries kept while the observer is being dragged.
pub const TRAIL_MAX_DRAG_POINTS: usize = 500;

/// A worldline's recorded events, oldest first. Every way of making or changing one leaves at
/// least one event in it: the event the observer stands on.
#[derive(Clone)]
pub struct Trail<T> {
    points: std::collections::VecDeque<T>,
}

impl<T> View for Trail<T> {
    type V = Seq<T>;

    /// The recorded events, oldest first.
    closed spec fn view(&self) -> Seq<T> {
        self.points@
    }
}

impl<T> Trail<T> {
    /// A trail holding only the event the observer was created at.
    pub fn new(start: T) -> (trail: Self)
        ensures
            trail@ == seq![start],
    {
        let mut points = std::collections::VecDeque::new();
        points.push_back(start);
        proof {
            assert(points@ =~= seq![start]);
        }
        Trail { points }
    }

    /// How many events are recorded.
    pub fn len(&self) -> (n: usize)
        ensures
            n == self@.len(),
    {
        self.points.len()
    }

    /// The `i`-th recorded event, oldest first.
    pub fn get(&self, i: usize) -> (point: &T)
        requires
            i < self@.len(),
        ensures
            *point == self@[i as int],
    {
        &self.points[i]
    }

    /// The oldest event still recorded.
    pub fn front(&self) -> (point: &T)
        requires
            self@.len() >= 1,
        ensures
            *point == self@[0],
    {
        &self.points[0]
    }

    /// The latest recorded event.
    pub fn back(&self) -> (point: &T)
        requires
            self@.len() >= 1,
        ensures
            *point == self@.last(),
    {
        let n = self.points.len();
        &self.points[n - 1]
    }

    /// Record the current event, dropping the oldest entry once the trail holds more than `cap`.
    pub fn record(&mut self, point: T, cap: usize)
        ensures
            final(self)@ == (if old(self)@.len() > cap {
                old(self)@.drop_first()
            } else {
                old(self)@
            }).push(point),
    {
        let evict = self.points.len() > cap;
        self.points.push_back(point);
        if evict {
            self.points.pop_front();
        }
        proof {
            let before = old(self)@;
            if evict {
                assert(before.push(point).drop_first() =~= before.drop_first().push(point));
            }
        }
    }

    /// Hold the trail at `[start, current]`: the whole of a worldline that is still waiting for
    /// its release.
    pub fn hold(&mut self, start: T, current: T)
        ensures
            final(self)@ == seq![start, current],
    {
        let mut points = std::collections::VecDeque::new();
        points.push_back(start);
        points.push_back(current);
        proof {
            assert(points@ =~= seq![start, current]);
        }
        self.points = points;
    }

    /// Throw the trail away and start again from `start`.
    pub fn restart(&mut self, start: T)
        ensures
            final(self)@ == seq![start],
    {
        let mut points = std::collections::VecDeque::new();
        points.push_back(start);
        proof {
            assert(points@ =~= seq![start]);
        }
        self.points = points;
    }

    /// Where the recorded events stop answering `keep` with true, found by bisection: an `n` with
    /// `keep` answering true on event `n - 1` (unless `n` is 0) and false on event `n` (unless `n`
    /// is the length). For a trail sorted so that `keep` holds of a prefix - events at or before a
    /// time, say - that is the length of the prefix.
    pub fn partition_point<F: Fn(&T) -> bool>(&self, keep: &F) -> (n: usize)
        requires
            forall|i: int| 0 <= i < self@.len() ==> keep.requires((&self@[i],)),
        ensures
            n <= self@.len(),
            n == 0 || keep.ensures((&self@[n - 1],), true),
            n == self@.len() || keep.ensures((&self@[n as int],), false),
    {
        let mut lo: usize = 0;
        let mut hi: usize = self.points.len();
        while lo < hi
            invariant
                lo <= hi <= self@.len(),
                forall|i: int| 0 <= i < self@.len() ==> keep.requires((&self@[i],)),
                lo == 0 || keep.ensures((&self@[lo - 1],), true),
                hi == self@.len() || keep.ensures((&self@[hi as int],), false),
            decreases hi - lo,
        {
            let mid = lo + (hi - lo) / 2;
            let answer = keep(&self.points[mid]);
            if answer {
                lo = mid + 1;
            } else {
                hi = mid;
            }
        }
        lo
    }

    /// Wind the trail back: keep the events before the point `n` where `keep` stops answering
    /// true (see `partition_point`, whose answer this returns), and never fewer than one, so that
    /// a target older than every event still held lands on the oldest of them.
    pub fn rewind<F: Fn(&T) -> bool>(&mut self, keep: &F) -> (n: usize)
        requires
            old(self)@.len() >= 1,
            forall|i: int|
                0 <= i < old(self)@.len() ==> keep.requires((&old(self)@[i],)),
        ensures
            n <= old(self)@.len(),
            n == 0 || keep.ensures((&old(self)@[n - 1],), true),
            n == old(self)@.len() || keep.ensures((&old(self)@[n as int],), false),
            final(self)@ == old(self)@.take(if n >= 1 { n as int } else { 1 }),
    {
        let n = self.partition_point(keep);
        let kept: usize = if n >= 1 {
            n
        } else {
            1
        };
        self.points.truncate(kept);
        proof {
            assert(self.points@ =~= old(self)@.take(kept as int));
        }
        n
    }
}

/// Recording never lets a trail that is within its cap grow past it by more than the one event
/// it ends on, never empties it, and always leaves it ending on the event just recorded with
/// everything before it in the order it was recorded.
pub proof fn lemma_record_is_bounded<T>(before: Seq<T>, point: T, cap: usize)
    requires
        before.len() >= 1,
    ensures
        ({
            let after = (if before.len() > cap {
                before.drop_first()
            } else {
                before
            }).push(point);
            &&& after.len() >= 1
            &&& after.last() == point
            &&& (before.len() <= cap + 1 ==> after.len() <= cap + 1)
            &&& after.len() <= before.len() + 1
            &&& after.drop_last() == before.subrange(before.len() - (after.len() - 1), before.len() as int)
        }),
{
    let after = (if before.len() > cap {
        before.drop_first()
    } else {
        before
    }).push(point);
    if before.len() > cap {
        assert(after.drop_last() =~= before.subrange(1, before.len() as int));
    } else {
        assert(after.drop_last() =~= before.subrange(0, before.len() as int));
    }
}

/// When `keep` answers by a predicate that holds of exactly the first `m` events (a trail sorted
/// in time, asked "at or before the target?"), the point `partition_point` finds is `m`: the
/// bisection lands on the length of that prefix and on nothing else.
pub proof fn lemma_partition_point_is_prefix_length<T, F: Fn(&T) -> bool>(
    events: Seq<T>,
    keep: F,
    holds: spec_fn(T) -> bool,
    m: int,
    n: int,
)
    requires
        0 <= m <= events.len(),
        forall|i: int| 0 <= i < m ==> holds(#[trigger] events[i]),
        forall|i: int| m <= i < events.len() ==> !holds(#[trigger] events[i]),
        forall|x: T, b: bool| #[trigger] keep.ensures((&x,), b) ==> b == holds(x),
        0 <= n <= events.len(),
        n == 0 || keep.ensures((&events[n - 1],), true),
        n == events.len() || keep.ensures((&events[n],), false),
    ensures
        n == m,
{
    if n > m {
        assert(holds(events[n - 1]));
    }
    if n < m {
        assert(!holds(events[n]));
    }
}

} // verus!
