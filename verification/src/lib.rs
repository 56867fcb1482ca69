//! An expiring-membership set ("TTL set"): a container that records that an
//! item exists for a fixed duration after insertion and answers membership
//! queries relative to a logical clock, reclaiming the memory of expired
//! entries incrementally during reads.
//!
//! Several interchangeable backend strategies implement the one `TtlSet`
//! contract: a lazy baseline (`Redactor`), a heap of expiry records popped
//! during reads (`heap_cleanup`), the same built on a mutable heap with
//! stable handles so a refresh relocates its record in place
//! (`mut_heap_cleanup`), and an ordered bucket index (`tree_cleanup`).
use vstd::prelude::*;

pub mod fake_clock;
pub mod heap;
pub mod heap_cleanup;
pub mod laws;
pub mod mut_heap_cleanup;
pub mod redactor;
pub mod tree_cleanup;

verus! {

/// Saturating addition on `u64`: timestamps and durations are added with
/// saturation, so an enormous time-to-live simply never expires.
pub open spec fn spec_sat_add(a: u64, b: u64) -> u64 {
    if a + b > u64::MAX {
        u64::MAX
    } else {
        (a + b) as u64
    }
}

/// Executable saturating addition, used to compute absolute expiry times.
pub fn sat_add(a: u64, b: u64) -> (r: u64)
    ensures
        r == spec_sat_add(a, b),
{
    if a <= u64::MAX - b {
        a + b
    } else {
        u64::MAX
    }
}

/// The abstract model every strategy is specified against: a map from item id
/// to its current absolute expiry time. An item is a live member at time `t`
/// exactly when its recorded expiry lies strictly in the future.
pub open spec fn live(m: Map<u64, u64>, t: u64, item: u64) -> bool {
    m.contains_key(item) && m[item] > t
}

/// Two expiry maps agree from time `t` on: no membership query at or after
/// `t` can tell them apart. A strategy's cleanup may only remove entries that
/// are already dead, so its map before and after cleanup agree in this sense.
pub open spec fn models_agree(m1: Map<u64, u64>, m2: Map<u64, u64>, t: u64) -> bool {
    forall|i: u64, t2: u64| t2 >= t ==> live(m1, t2, i) == live(m2, t2, i)
}

/// A capability supplying a monotonic logical timestamp (in milliseconds) on
/// demand. Every reading moves the clock forward by exactly its quantum, so
/// with a positive quantum repeated readings are strictly increasing, and an
/// explicit `advance` moves it by any amount; it never moves backwards.
pub trait Clock: Sized {
    /// The clock's current logical time.
    spec fn time(&self) -> u64;

    /// How far one reading moves the clock forward.
    spec fn quantum(&self) -> u64;

    /// A clock at time zero, advancing by one millisecond per reading.
    fn start() -> (c: Self)
        ensures
            c.time() == 0,
            c.quantum() == 1,
    ;

    /// Read the current time: the clock auto-advances by its quantum and
    /// the reading is exact for its state after the call.
    fn now(&mut self) -> (t: u64)
        ensures
            final(self).time() == spec_sat_add(old(self).time(), old(self).quantum()),
            final(self).quantum() == old(self).quantum(),
            t == final(self).time(),
    ;

    /// Move the clock forward by `duration` milliseconds.
    fn advance(&mut self, duration: u64)
        ensures
            final(self).time() == spec_sat_add(old(self).time(), duration),
            final(self).quantum() == old(self).quantum(),
    ;
}

/// The shared contract of every expiring-set strategy.
///
/// `insert` records an absolute expiry of now plus `duration` for `item`,
/// replacing any earlier record for the same id. `contains` answers whether
/// the most recent expiry recorded for `item` still lies in the future; it
/// may discard entries that are already dead (incremental cleanup), but must
/// never change the answer of any present or future query.
pub trait TtlSet: Sized {
    /// The strategy's internal invariant.
    spec fn wf(&self) -> bool;

    /// The recorded expiry times, as the abstract model map.
    spec fn members(&self) -> Map<u64, u64>;

    /// The strategy's embedded clock reading.
    spec fn time(&self) -> u64;

    /// How far the embedded clock moves per reading; each operation below
    /// reads the clock exactly once.
    spec fn tick(&self) -> u64;

    /// Record that `item` exists until `duration` milliseconds from now.
    fn insert(&mut self, item: u64, duration: u64)
        requires
            old(self).wf(),
        ensures
            final(self).wf(),
            final(self).time() == spec_sat_add(old(self).time(), old(self).tick()),
            final(self).tick() == old(self).tick(),
            final(self).members() == old(self).members().insert(
                item,
                spec_sat_add(final(self).time(), duration),
            ),
    ;

    /// Answer whether `item` is still a member, i.e. whether its recorded
    /// expiry is strictly later than the clock reading taken by this call.
    /// Entries whose expiry has passed may be discarded on the way.
    fn contains(&mut self, item: u64) -> (r: bool)
        requires
            old(self).wf(),
        ensures
            final(self).wf(),
            final(self).time() == spec_sat_add(old(self).time(), old(self).tick()),
            final(self).tick() == old(self).tick(),
            r == live(old(self).members(), final(self).time(), item),
            models_agree(final(self).members(), old(self).members(), final(self).time()),
    ;
}

} // verus!
