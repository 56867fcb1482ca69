//! A TTL set backed by the stable-handle heap.
//!
//! The hash index maps each item id to a handle into the heap of expiry
//! records, so a refresh relocates the item's one record in place (via
//! `increment`/`decrement`) instead of leaving a stale duplicate behind:
//! every live item has exactly one record. `contains` pops expired records
//! and drops their index entries unconditionally, which is sound precisely
//! because of that one-to-one correspondence.
use vstd::prelude::*;

verus! {

use std::collections::HashMap;
use vstd::seq_lib::group_to_multiset_ensures;
use crate::heap::{Handle, MutHeap};
use crate::heap_cleanup::Expiration;
use crate::{live, sat_add, spec_sat_add, Clock, TtlSet};

/// The handle-based strategy: a hash index from item id to the handle of its
/// single expiry record in the heap.
pub struct HeapCleanup<C: Clock> {
    /// The clock this set reads its notion of "now" from.
    pub clock: C,
    expiration_index: MutHeap<Expiration>,
    expiration_times: HashMap<u64, Handle>,
}

impl<C: Clock> HeapCleanup<C> {
    /// The number of pending expiry records; with handles there is exactly
    /// one per live item.
    pub fn backlog(&self) -> (n: usize)
        ensures
            n == self.record_count(),
    {
        self.expiration_index.size()
    }

    /// The number of records in the backing heap.
    pub closed spec fn record_count(&self) -> nat {
        self.expiration_index.len()
    }

    /// The expiry record an indexed item's handle currently points at.
    closed spec fn record_of(&self, i: u64) -> Expiration {
        self.expiration_index.item_of(self.expiration_times@[i])
    }

    /// Move the embedded clock forward by `duration` milliseconds; the
    /// recorded memberships and their records are untouched.
    pub fn advance_clock(&mut self, duration: u64)
        requires
            old(self).wf(),
        ensures
            final(self).wf(),
            final(self).members() == old(self).members(),
            final(self).record_count() == old(self).record_count(),
            final(self).time() == spec_sat_add(old(self).time(), duration),
            final(self).tick() == old(self).tick(),
    {
        self.clock.advance(duration);
    }

    /// Pop every record whose time is at or before `threshold`, removing the
    /// index entry of each popped record's item. Afterwards exactly the
    /// entries with a future expiry remain, one record each.
    pub fn incremental_clean(&mut self, threshold: u64)
        requires
            old(self).wf(),
        ensures
            final(self).wf(),
            final(self).time() == old(self).time(),
            final(self).tick() == old(self).tick(),
            forall|i: u64|
                #[trigger] final(self).members().contains_key(i) <==> (old(
                    self,
                ).members().contains_key(i) && old(self).members()[i] > threshold),
            forall|i: u64|
                #[trigger] final(self).members().contains_key(i) ==> final(self).members()[i]
                    == old(self).members()[i],
            final(self).record_count() <= old(self).record_count(),
            (forall|i: u64|
                old(self).members().contains_key(i) ==> old(self).members()[i] <= threshold)
                ==> final(self).record_count() == 0,
    {
        broadcast use vstd::std_specs::hash::group_hash_axioms;
        broadcast use vstd::multiset::group_multiset_axioms;
        broadcast use group_to_multiset_ensures;

        loop
            invariant
                self.wf(),
                self.time() == old(self).time(),
                self.tick() == old(self).tick(),
                forall|i: u64|
                    #[trigger] self.members().contains_key(i) ==> old(
                        self,
                    ).members().contains_key(i) && self.members()[i] == old(self).members()[i],
                forall|i: u64|
                    old(self).members().contains_key(i) && old(self).members()[i] > threshold
                        ==> #[trigger] self.members().contains_key(i),
                self.record_count() <= old(self).record_count(),
            ensures
                self.wf(),
                self.time() == old(self).time(),
                self.tick() == old(self).tick(),
                forall|i: u64|
                    #[trigger] self.members().contains_key(i) ==> old(
                        self,
                    ).members().contains_key(i) && self.members()[i] == old(self).members()[i],
                forall|i: u64|
                    old(self).members().contains_key(i) && old(self).members()[i] > threshold
                        ==> #[trigger] self.members().contains_key(i),
                self.record_count() <= old(self).record_count(),
                forall|i: u64| #[trigger] self.members().contains_key(i) ==> self.members()[i]
                    > threshold,
            decreases self.expiration_index.len(),
        {
            let cont: bool = match self.expiration_index.peek_max() {
                Some(e) => e.time <= threshold,
                None => false,
            };
            if !cont {
                proof {
                    broadcast use vstd::multiset::group_multiset_axioms;
                    broadcast use group_to_multiset_ensures;

                    assert forall|i: u64| #[trigger] self.members().contains_key(i) implies
                        self.members()[i] > threshold by {
                        let h = self.expiration_times@[i];
                        self.expiration_index.lemma_valid_handle_in_heap(h);
                        let r = self.record_of(i);
                        assert(self.expiration_index.mset().contains(r));
                        assert(self.expiration_index.mset().len() > 0);
                        assert(self.expiration_index.items().len() > 0);
                    }
                }
                break ;
            }
            let ghost pre = *self;
            match self.expiration_index.pop_max() {
                Some(e) => {
                    proof {
                        broadcast use vstd::std_specs::hash::group_hash_axioms;

                        assert(e == pre.expiration_index.items()[0]);
                        assert(pre.expiration_times@.contains_key(
                            (pre.expiration_index.items()[0]).item,
                        ));
                        assert(pre.expiration_index.pos_of(pre.expiration_times@[e.item]) == 0);
                        assert(pre.record_of(e.item) == e);
                    }
                    self.expiration_times.remove(&e.item);
                    proof {
                        broadcast use vstd::std_specs::hash::group_hash_axioms;

                        assert(self.expiration_times@ == pre.expiration_times@.remove(e.item));
                        assert forall|i: u64| #[trigger] self.members().contains_key(i) implies
                            old(self).members().contains_key(i) && self.members()[i] == old(
                            self,
                        ).members()[i] by {
                            assert(pre.members().contains_key(i));
                            assert(i != e.item);
                            if pre.expiration_index.pos_of(pre.expiration_times@[i]) == 0 {
                                assert(pre.record_of(i) == e);
                                assert(false);
                            }
                            assert(self.record_of(i) == pre.record_of(i));
                        }
                        assert forall|i: u64|
                            old(self).members().contains_key(i) && old(self).members()[i]
                                > threshold implies #[trigger] self.members().contains_key(i) by {
                            assert(pre.members().contains_key(i));
                            assert(pre.members()[e.item] == e.time);
                            assert(i != e.item);
                        }
                        assert forall|i: u64| #[trigger] self.expiration_times@.contains_key(
                            i,
                        ) implies {
                            &&& self.expiration_index.valid(self.expiration_times@[i])
                            &&& self.record_of(i).item == i
                        } by {
                            assert(pre.expiration_times@.contains_key(i));
                            assert(i != e.item);
                            if pre.expiration_index.pos_of(pre.expiration_times@[i]) == 0 {
                                assert(pre.record_of(i) == e);
                                assert(false);
                            }
                            assert(self.record_of(i) == pre.record_of(i));
                        }
                        assert forall|k: int|
                            0 <= k < self.expiration_index.len() implies {
                            &&& self.expiration_times@.contains_key(
                                (#[trigger] self.expiration_index.items()[k]).item,
                            )
                            &&& self.expiration_index.valid(
                                self.expiration_times@[self.expiration_index.items()[k].item],
                            )
                            &&& self.expiration_index.pos_of(
                                self.expiration_times@[self.expiration_index.items()[k].item],
                            ) == k
                        } by {
                            self.expiration_index.lemma_slot_has_handle(k);
                            let hk = choose|h: Handle|
                                self.expiration_index.valid(h) && self.expiration_index.pos_of(h)
                                    == k && self.expiration_index.item_of(h)
                                    == self.expiration_index.items()[k];
                            assert(pre.expiration_index.valid(hk));
                            assert(pre.expiration_index.pos_of(hk) != 0);
                            assert(pre.expiration_index.item_of(hk)
                                == self.expiration_index.items()[k]);
                            let kp = pre.expiration_index.pos_of(hk);
                            pre.expiration_index.lemma_valid_handle_in_heap(hk);
                            assert(pre.expiration_index.items()[kp]
                                == pre.expiration_index.item_of(hk));
                            let i = self.expiration_index.items()[k].item;
                            assert(pre.expiration_times@.contains_key(
                                (pre.expiration_index.items()[kp]).item,
                            ));
                            assert(pre.expiration_index.pos_of(pre.expiration_times@[i]) == kp);
                            pre.expiration_index.lemma_valid_handle_unique(
                                hk,
                                pre.expiration_times@[i],
                            );
                            assert(i != e.item);
                        }
                    }
                },
                None => {},
            }
        }
        proof {
            if forall|i: u64|
                old(self).members().contains_key(i) ==> old(self).members()[i] <= threshold {
                if self.expiration_index.len() > 0 {
                    self.expiration_index.lemma_slot_has_handle(0);
                    let i0 = self.expiration_index.items()[0].item;
                    assert(self.expiration_times@.contains_key(i0));
                    assert(self.members().contains_key(i0));
                    assert(false);
                }
            }
        }
    }
}

impl<C: Clock> TtlSet for HeapCleanup<C> {
    closed spec fn wf(&self) -> bool {
        &&& self.expiration_index.wf()
        &&& forall|i: u64|
            #[trigger] self.expiration_times@.contains_key(i) ==> {
                &&& self.expiration_index.valid(self.expiration_times@[i])
                &&& self.record_of(i).item == i
            }
        &&& forall|k: int|
            0 <= k < self.expiration_index.len() ==> {
                &&& self.expiration_times@.contains_key(
                    (#[trigger] self.expiration_index.items()[k]).item,
                )
                &&& self.expiration_index.valid(
                    self.expiration_times@[self.expiration_index.items()[k].item],
                )
                &&& self.expiration_index.pos_of(
                    self.expiration_times@[self.expiration_index.items()[k].item],
                ) == k
            }
    }

    closed spec fn members(&self) -> Map<u64, u64> {
        Map::new(
            |i: u64| self.expiration_times@.contains_key(i),
            |i: u64| self.record_of(i).time,
        )
    }

    closed spec fn time(&self) -> u64 {
        self.clock.time()
    }

    closed spec fn tick(&self) -> u64 {
        self.clock.quantum()
    }

    fn insert(&mut self, item: u64, duration: u64)
        ensures
            final(self).record_count() == if old(self).members().contains_key(item) {
                old(self).record_count()
            } else {
                old(self).record_count() + 1
            },
    {
        broadcast use vstd::std_specs::hash::group_hash_axioms;
        broadcast use vstd::multiset::group_multiset_axioms;
        broadcast use group_to_multiset_ensures;

        let now = self.clock.now();
        let time = sat_add(now, duration);
        let record = Expiration { time, item };
        let existing: Option<Handle> = match self.expiration_times.get(&item) {
            Some(h) => Some(*h),
            None => None,
        };
        match existing {
            Some(h) => {
                // The heap's ordering is inverted on time, so a refresh to an
                // earlier expiry raises the record's priority and a refresh
                // to a later one lowers it; one of the two calls applies.
                let _ = self.expiration_index.increment(&h, record);
                let _ = self.expiration_index.decrement(&h, record);
                proof {
                    assert(old(self).record_of(item).item == item);
                    assert(self.record_of(item) == record);
                    assert forall|i: u64| #[trigger] self.expiration_times@.contains_key(
                        i,
                    ) implies {
                        &&& self.expiration_index.valid(self.expiration_times@[i])
                        &&& self.record_of(i).item == i
                    } by {
                        if self.expiration_times@[i] != h {
                            if old(self).expiration_index.pos_of(self.expiration_times@[i]) == old(
                                self,
                            ).expiration_index.pos_of(h) {
                                old(self).expiration_index.lemma_valid_handle_unique(
                                    self.expiration_times@[i],
                                    h,
                                );
                            }
                            assert(self.record_of(i) == old(self).record_of(i));
                        } else {
                            assert(old(self).record_of(i) == old(self).record_of(item));
                            assert(i == item);
                        }
                    }
                    assert forall|k: int|
                        0 <= k < self.expiration_index.len() implies {
                        &&& self.expiration_times@.contains_key(
                            (#[trigger] self.expiration_index.items()[k]).item,
                        )
                        &&& self.expiration_index.valid(
                            self.expiration_times@[self.expiration_index.items()[k].item],
                        )
                        &&& self.expiration_index.pos_of(
                            self.expiration_times@[self.expiration_index.items()[k].item],
                        ) == k
                    } by {
                        self.expiration_index.lemma_slot_has_handle(k);
                        let hk = choose|h2: Handle|
                            self.expiration_index.valid(h2) && self.expiration_index.pos_of(h2)
                                == k && self.expiration_index.item_of(h2)
                                == self.expiration_index.items()[k];
                        let i = self.expiration_index.items()[k].item;
                        if hk == h {
                            assert(i == item);
                            assert(self.expiration_times@[i] == h);
                            self.expiration_index.lemma_valid_handle_in_heap(h);
                            assert(self.expiration_index.items()[self.expiration_index.pos_of(h)]
                                == self.expiration_index.item_of(h));
                            self.expiration_index.lemma_valid_handle_unique(hk, h);
                        } else {
                            assert(old(self).expiration_index.valid(hk));
                            assert(self.expiration_index.item_of(hk) == old(
                                self,
                            ).expiration_index.item_of(hk));
                            let kp = old(self).expiration_index.pos_of(hk);
                            old(self).expiration_index.lemma_valid_handle_in_heap(hk);
                            assert(old(self).expiration_index.items()[kp] == old(
                                self,
                            ).expiration_index.item_of(hk));
                            assert(old(self).expiration_times@.contains_key(
                                (old(self).expiration_index.items()[kp]).item,
                            ));
                            assert(old(self).expiration_index.pos_of(
                                old(self).expiration_times@[i],
                            ) == kp);
                            old(self).expiration_index.lemma_valid_handle_unique(
                                hk,
                                old(self).expiration_times@[i],
                            );
                            assert(i != item);
                            assert(self.expiration_times@[i] == hk);
                        }
                    }
                    assert(self.members() =~= old(self).members().insert(item, time));
                }
            },
            None => {
                let h = self.expiration_index.insert(record);
                self.expiration_times.insert(item, h);
                proof {
                    assert forall|k: int|
                        0 <= k < self.expiration_index.len() implies {
                        &&& self.expiration_times@.contains_key(
                            (#[trigger] self.expiration_index.items()[k]).item,
                        )
                        &&& self.expiration_index.valid(
                            self.expiration_times@[self.expiration_index.items()[k].item],
                        )
                        &&& self.expiration_index.pos_of(
                            self.expiration_times@[self.expiration_index.items()[k].item],
                        ) == k
                    } by {
                        self.expiration_index.lemma_slot_has_handle(k);
                        let hk = choose|h2: Handle|
                            self.expiration_index.valid(h2) && self.expiration_index.pos_of(h2)
                                == k && self.expiration_index.item_of(h2)
                                == self.expiration_index.items()[k];
                        let i = self.expiration_index.items()[k].item;
                        if hk == h {
                            assert(i == item);
                        } else {
                            assert(old(self).expiration_index.valid(hk));
                            assert(self.expiration_index.item_of(hk) == old(
                                self,
                            ).expiration_index.item_of(hk));
                            let kp = old(self).expiration_index.pos_of(hk);
                            old(self).expiration_index.lemma_valid_handle_in_heap(hk);
                            assert(old(self).expiration_index.items()[kp] == old(
                                self,
                            ).expiration_index.item_of(hk));
                            assert(old(self).expiration_times@.contains_key(
                                (old(self).expiration_index.items()[kp]).item,
                            ));
                            assert(old(self).expiration_times@.contains_key(i));
                            if i == item {
                                assert(old(self).record_of(item).item == item);
                                assert(false);
                            }
                            assert(old(self).expiration_index.pos_of(
                                old(self).expiration_times@[i],
                            ) == kp);
                            old(self).expiration_index.lemma_valid_handle_unique(
                                hk,
                                old(self).expiration_times@[i],
                            );
                            assert(self.expiration_times@[i] == hk);
                        }
                    }
                    assert(self.members() =~= old(self).members().insert(item, time));
                }
            },
        }
    }

    fn contains(&mut self, item: u64) -> (r: bool)
        ensures
            final(self).record_count() <= old(self).record_count(),
            (forall|i: u64|
                old(self).members().contains_key(i) ==> old(self).members()[i]
                    <= final(self).time()) ==> final(self).record_count() == 0,
    {
        broadcast use vstd::std_specs::hash::group_hash_axioms;

        let now = self.clock.now();
        let ghost mid = *self;
        self.incremental_clean(now);
        let r = self.expiration_times.contains_key(&item);
        proof {
            assert(mid.members() == old(self).members());
            assert(r == self.members().contains_key(item));
            assert(self.members().contains_key(item) == (old(self).members().contains_key(item)
                && old(self).members()[item] > now));
            assert forall|i: u64, t2: u64| t2 >= now implies live(final(self).members(), t2, i)
                == live(old(self).members(), t2, i) by {
                if old(self).members().contains_key(i) && old(self).members()[i] > now {
                    assert(final(self).members().contains_key(i));
                }
            }
            if forall|i: u64|
                old(self).members().contains_key(i) ==> old(self).members()[i] <= self.time() {
                assert forall|i: u64| mid.members().contains_key(i) implies mid.members()[i]
                    <= now by {
                    assert(old(self).members().contains_key(i));
                }
            }
        }
        r
    }
}

impl<C: Clock> Default for HeapCleanup<C> {
    /// An empty set reading a freshly started clock.
    fn default() -> (s: Self)
        ensures
            s.wf(),
            s.members() == Map::<u64, u64>::empty(),
            s.record_count() == 0,
            s.time() == 0,
            s.tick() == 1,
    {
        let s = HeapCleanup {
            clock: C::start(),
            expiration_index: MutHeap::default(),
            expiration_times: HashMap::new(),
        };
        proof {
            assert(s.members() =~= Map::<u64, u64>::empty());
        }
        s
    }
}

} // verus!
