//! The baseline lazy strategy: remember each item's expiry and check it on
//! read. O(1) per operation, but expired entries are never reclaimed.
use vstd::prelude::*;

verus! {

use std::collections::HashMap;
use crate::{sat_add, spec_sat_add, Clock, TtlSet};

/// A simple `TtlSet` that keeps each item's expiration time and, during a
/// `contains` check, just compares the stored expiry against the clock.
pub struct Redactor<C: Clock> {
    /// The clock this set reads its notion of "now" from.
    pub clock: C,
    expiration_times: HashMap<u64, u64>,
}

impl<C: Clock> Redactor<C> {
    /// An empty set reading a freshly started clock.
    pub fn new() -> (r: Redactor<C>)
        ensures
            r.wf(),
            r.members() == Map::<u64, u64>::empty(),
            r.time() == 0,
            r.tick() == 1,
    {
        Redactor { clock: C::start(), expiration_times: HashMap::new() }
    }

    /// Move the embedded clock forward by `duration` milliseconds; the
    /// recorded memberships are untouched.
    pub fn advance_clock(&mut self, duration: u64)
        requires
            old(self).wf(),
        ensures
            final(self).wf(),
            final(self).members() == old(self).members(),
            final(self).time() == spec_sat_add(old(self).time(), duration),
            final(self).tick() == old(self).tick(),
    {
        self.clock.advance(duration);
    }
}

impl<C: Clock> TtlSet for Redactor<C> {
    open spec fn wf(&self) -> bool {
        true
    }

    closed spec fn members(&self) -> Map<u64, u64> {
        self.expiration_times@
    }

    closed spec fn time(&self) -> u64 {
        self.clock.time()
    }

    closed spec fn tick(&self) -> u64 {
        self.clock.quantum()
    }

    fn insert(&mut self, item: u64, duration: u64) {
        broadcast use vstd::std_specs::hash::group_hash_axioms;

        let now = self.clock.now();
        let expiry = sat_add(now, duration);
        self.expiration_times.insert(item, expiry);
    }

    fn contains(&mut self, item: u64) -> (r: bool)
        ensures
            final(self).members() == old(self).members(),
    {
        broadcast use vstd::std_specs::hash::group_hash_axioms;

        let now = self.clock.now();
        match self.expiration_times.get(&item) {
            Some(expires_at) => *expires_at > now,
            None => false,
        }
    }
}

} // verus!
