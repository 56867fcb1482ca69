//! A TTL set backed by a priority queue of expiry records.
//!
//! Each `insert` pushes a fresh `(time, item)` record; a refresh simply
//! pushes another record and lets the stale one linger until cleanup. Every
//! `contains` first pops all records whose time has passed, removing an
//! item's index entry only when the record still matches its currently
//! recorded expiry (a later re-insertion may have superseded it).
use vstd::prelude::*;

verus! {

use std::collections::HashMap;
use vstd::multiset::Multiset;
use vstd::seq_lib::group_to_multiset_ensures;
use crate::heap::{MutHeap, Priority};
use crate::{live, sat_add, spec_sat_add, Clock, TtlSet};

/// One expiry record: `item` stops being a member once `time` has passed.
#[derive(Clone, Copy, Debug)]
pub struct Expiration {
    /// The absolute expiry time.
    pub time: u64,
    /// The id of the item this record belongs to.
    pub item: u64,
}

impl Priority for Expiration {
    /// The record that expires sooner has the greater priority, so a
    /// max-heap surfaces the earliest-expiring record first.
    open spec fn key(&self) -> int {
        -(self.time as int)
    }

    fn above(&self, other: &Self) -> (r: bool) {
        self.time < other.time
    }
}

/// The heap-of-records strategy: a hash index from item id to its current
/// expiry, and a priority queue of all records pushed so far.
pub struct HeapCleanup<C: Clock> {
    /// The clock this set reads its notion of "now" from.
    pub clock: C,
    expiration_times: HashMap<u64, u64>,
    expiration_index: MutHeap<Expiration>,
}

impl<C: Clock> HeapCleanup<C> {
    /// The pending expiry records, stale ones included.
    pub closed spec fn backing(&self) -> Multiset<Expiration> {
        self.expiration_index.mset()
    }

    /// The number of pending expiry records.
    pub fn backlog(&self) -> (n: usize)
        ensures
            n == self.backing().len(),
    {
        proof {
            broadcast use group_to_multiset_ensures;

        }
        self.expiration_index.size()
    }

    /// Move the embedded clock forward by `duration` milliseconds; the
    /// recorded memberships and pending records are untouched.
    pub fn advance_clock(&mut self, duration: u64)
        requires
            old(self).wf(),
        ensures
            final(self).wf(),
            final(self).members() == old(self).members(),
            final(self).backing() == old(self).backing(),
            final(self).time() == spec_sat_add(old(self).time(), duration),
            final(self).tick() == old(self).tick(),
    {
        self.clock.advance(duration);
    }

    /// Pop every record whose time is at or before `threshold`, removing the
    /// indexed entry of each popped record that still matches its item's
    /// current expiry. Afterwards exactly the entries with a future expiry
    /// remain, and so do only records with a future time.
    pub fn incremental_clean(&mut self, threshold: u64)
        requires
            old(self).wf(),
        ensures
            final(self).wf(),
            final(self).time() == old(self).time(),
            final(self).tick() == old(self).tick(),
            forall|i: u64|
                #[trigger] final(self).members().contains_key(i) <==> (old(
                    self,
                ).members().contains_key(i) && old(self).members()[i] > threshold),
            forall|i: u64|
                #[trigger] final(self).members().contains_key(i) ==> final(self).members()[i]
                    == old(self).members()[i],
            final(self).backing().subset_of(old(self).backing()),
            forall|e: Expiration| final(self).backing().contains(e) ==> e.time > threshold,
            (forall|e: Expiration| old(self).backing().contains(e) ==> e.time <= threshold)
                ==> final(self).backing().len() == 0,
    {
        broadcast use vstd::std_specs::hash::group_hash_axioms;
        broadcast use group_to_multiset_ensures;
        broadcast use vstd::multiset::group_multiset_axioms;

        loop
            invariant
                self.wf(),
                self.time() == old(self).time(),
                self.tick() == old(self).tick(),
                forall|i: u64|
                    #[trigger] self.members().contains_key(i) ==> old(
                        self,
                    ).members().contains_key(i) && self.members()[i] == old(self).members()[i],
                forall|i: u64|
                    old(self).members().contains_key(i) && old(self).members()[i] > threshold
                        ==> #[trigger] self.members().contains_key(i),
                self.backing().subset_of(old(self).backing()),
            ensures
                self.wf(),
                self.time() == old(self).time(),
                self.tick() == old(self).tick(),
                forall|i: u64|
                    #[trigger] self.members().contains_key(i) ==> old(
                        self,
                    ).members().contains_key(i) && self.members()[i] == old(self).members()[i],
                forall|i: u64|
                    old(self).members().contains_key(i) && old(self).members()[i] > threshold
                        ==> #[trigger] self.members().contains_key(i),
                self.backing().subset_of(old(self).backing()),
                forall|e: Expiration| self.backing().contains(e) ==> e.time > threshold,
            decreases self.expiration_index.len(),
        {
            let cont: bool = match self.expiration_index.peek_max() {
                Some(e) => e.time <= threshold,
                None => false,
            };
            if !cont {
                proof {
                    broadcast use vstd::multiset::group_multiset_axioms;
                    broadcast use group_to_multiset_ensures;

                    assert forall|e: Expiration| self.backing().contains(e) implies e.time
                        > threshold by {
                        assert(self.backing().count(e) > 0);
                        assert(self.backing().len() >= self.backing().count(e));
                        assert(self.expiration_index.items().len() == self.backing().len());
                    }
                }
                break ;
            }
            let ghost pre = *self;
            match self.expiration_index.pop_max() {
                Some(e) => {
                    let stale = match self.expiration_times.get(&e.item) {
                        Some(t) => *t == e.time,
                        None => false,
                    };
                    if stale {
                        self.expiration_times.remove(&e.item);
                    }
                    proof {
                        broadcast use vstd::multiset::group_multiset_axioms;
                        broadcast use vstd::std_specs::hash::group_hash_axioms;

                        if stale {
                            assert(self.members() == pre.members().remove(e.item));
                        } else {
                            assert(self.members() == pre.members());
                        }
                        assert forall|i: u64| #[trigger] self.members().contains_key(i) implies
                            old(self).members().contains_key(i) && self.members()[i] == old(
                            self,
                        ).members()[i] by {
                            assert(pre.members().contains_key(i));
                        }
                        assert forall|i: u64|
                            old(self).members().contains_key(i) && old(self).members()[i]
                                > threshold implies #[trigger] self.members().contains_key(i) by {
                            assert(pre.members().contains_key(i));
                            if stale {
                                assert(pre.members()[e.item] == e.time);
                                assert(e.time <= threshold);
                                assert(i != e.item);
                            }
                        }
                        assert forall|i: u64| #[trigger] self.members().contains_key(i) implies
                            self.backing().contains(
                            Expiration { time: self.members()[i], item: i },
                        ) by {
                            let r = Expiration { time: pre.members()[i], item: i };
                            assert(pre.backing().contains(r));
                            assert(r != e);
                            assert(self.backing().count(r) == pre.backing().count(r));
                        }
                        assert forall|x: Expiration|
                            self.backing().count(x) <= old(self).backing().count(x) by {
                            assert(pre.backing().count(x) <= old(self).backing().count(x));
                        }
                    }
                },
                None => {},
            }
        }
        proof {
            if forall|e: Expiration| old(self).backing().contains(e) ==> e.time <= threshold {
                crate::laws::lemma_cleanup_converges(
                    old(self).backing(),
                    final(self).backing(),
                    threshold,
                );
            }
        }
    }
}

impl<C: Clock> TtlSet for HeapCleanup<C> {
    closed spec fn wf(&self) -> bool {
        &&& self.expiration_index.wf()
        &&& forall|i: u64|
            #[trigger] self.expiration_times@.contains_key(i)
                ==> self.expiration_index.mset().contains(
                Expiration { time: self.expiration_times@[i], item: i },
            )
    }

    closed spec fn members(&self) -> Map<u64, u64> {
        self.expiration_times@
    }

    closed spec fn time(&self) -> u64 {
        self.clock.time()
    }

    closed spec fn tick(&self) -> u64 {
        self.clock.quantum()
    }

    fn insert(&mut self, item: u64, duration: u64)
        ensures
            final(self).backing() == old(self).backing().insert(
                Expiration { time: spec_sat_add(final(self).time(), duration), item },
            ),
    {
        broadcast use vstd::std_specs::hash::group_hash_axioms;
        broadcast use vstd::multiset::group_multiset_axioms;

        let now = self.clock.now();
        let time = sat_add(now, duration);
        self.expiration_times.insert(item, time);
        let _ = self.expiration_index.insert(Expiration { time, item });
    }

    fn contains(&mut self, item: u64) -> (r: bool)
        ensures
            final(self).backing().subset_of(old(self).backing()),
            forall|e: Expiration|
                final(self).backing().contains(e) ==> e.time > final(self).time(),
            (forall|e: Expiration|
                old(self).backing().contains(e) ==> e.time <= final(self).time())
                ==> final(self).backing().len() == 0,
    {
        broadcast use vstd::std_specs::hash::group_hash_axioms;

        let now = self.clock.now();
        let ghost mid = *self;
        self.incremental_clean(now);
        let r = self.expiration_times.contains_key(&item);
        proof {
            assert forall|i: u64, t2: u64| t2 >= now implies live(final(self).members(), t2, i)
                == live(old(self).members(), t2, i) by {
                if old(self).members().contains_key(i) && old(self).members()[i] > now {
                    assert(final(self).members().contains_key(i));
                }
            }
            assert(mid.backing() == old(self).backing());
            if forall|e: Expiration| old(self).backing().contains(e) ==> e.time <= self.time() {
                assert forall|e: Expiration| mid.backing().contains(e) implies e.time <= now by {
                    assert(old(self).backing().contains(e));
                }
            }
        }
        r
    }
}

impl<C: Clock> Default for HeapCleanup<C> {
    /// An empty set reading a freshly started clock.
    fn default() -> (s: Self)
        ensures
            s.wf(),
            s.members() == Map::<u64, u64>::empty(),
            s.backing() == Multiset::<Expiration>::empty(),
            s.time() == 0,
            s.tick() == 1,
    {
        let s = HeapCleanup {
            clock: C::start(),
            expiration_times: HashMap::new(),
            expiration_index: MutHeap::default(),
        };
        s
    }
}

} // verus!
