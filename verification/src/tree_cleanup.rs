//! A TTL set backed by an ordered index of time buckets.
//!
//! The index is kept sorted by expiry time; each bucket holds the distinct
//! ids of the items expiring at that instant. A refresh moves the id from
//! its old bucket (deleting the bucket if it becomes empty) into the bucket
//! of its new expiry, and `contains` detaches whole leading buckets whose
//! time has passed — bucket-granular relocation instead of the heap's
//! handle-based percolation.
use vstd::prelude::*;

verus! {

use std::collections::HashMap;
use crate::{live, sat_add, spec_sat_add, Clock, TtlSet};

struct TimeBucket {
    time: u64,
    ids: Vec<u64>,
}

/// The ordered index is strictly sorted by time, and every bucket holds a
/// nonempty list of distinct ids.
spec fn structure(s: Seq<TimeBucket>) -> bool {
    &&& forall|a: int, b: int|
        0 <= a < b < s.len() ==> (#[trigger] s[a]).time < (#[trigger] s[b]).time
    &&& forall|b: int| 0 <= b < s.len() ==> (#[trigger] s[b]).ids@.len() > 0
    &&& forall|b: int, j: int, k: int|
        0 <= b < s.len() && 0 <= j < k < s[b].ids@.len() ==> (#[trigger] s[b].ids@[j]) != (
        #[trigger] s[b].ids@[k])
}

/// Some bucket with time `t` holds the id `i`.
spec fn idx_has(s: Seq<TimeBucket>, t: u64, i: u64) -> bool {
    exists|b: int, j: int|
        0 <= b < s.len() && 0 <= j < s[b].ids@.len() && s[b].time == t && (#[trigger] s[b].ids@[j])
            == i
}

/// The first position whose bucket time is not below `t` (the insertion
/// point for time `t` in the sorted index).
fn bucket_pos(index: &Vec<TimeBucket>, t: u64) -> (p: usize)
    requires
        structure(index@),
    ensures
        p <= index@.len(),
        forall|b: int| 0 <= b < p ==> (#[trigger] index@[b]).time < t,
        p < index@.len() ==> index@[p as int].time >= t,
{
    let mut p: usize = 0;
    while p < index.len() && index[p].time < t
        invariant
            p <= index@.len(),
            forall|b: int| 0 <= b < p ==> (#[trigger] index@[b]).time < t,
        decreases index@.len() - p,
    {
        p = p + 1;
    }
    p
}

/// Remove id `i` from the bucket with time `t`, deleting the bucket if it
/// becomes empty. Exactly the pair `(t, i)` disappears from the index.
fn bucket_remove(index: &mut Vec<TimeBucket>, t: u64, i: u64)
    requires
        structure(old(index)@),
        idx_has(old(index)@, t, i),
    ensures
        structure(final(index)@),
        forall|t2: u64, i2: u64|
            #[trigger] idx_has(final(index)@, t2, i2) <==> (idx_has(old(index)@, t2, i2) && !(t2
                == t && i2 == i)),
{
    let ghost s0 = index@;
    let p = bucket_pos(index, t);
    proof {
        let (wb, wj) = choose|wb: int, wj: int|
            0 <= wb < s0.len() && 0 <= wj < s0[wb].ids@.len() && s0[wb].time == t && s0[wb].ids@[wj]
                == i;
        assert(wb >= p as int);
        assert(wb <= p as int);
        assert(s0[p as int].time == t);
    }
    let mut b = index.remove(p);
    let mut j: usize = 0;
    while j < b.ids.len() && b.ids[j] != i
        invariant
            j <= b.ids@.len(),
            forall|k: int| 0 <= k < j ==> (#[trigger] b.ids@[k]) != i,
        decreases b.ids@.len() - j,
    {
        j = j + 1;
    }
    proof {
        let (wb, wj) = choose|wb: int, wj: int|
            0 <= wb < s0.len() && 0 <= wj < s0[wb].ids@.len() && s0[wb].time == t && s0[wb].ids@[wj]
                == i;
        assert(wb == p as int);
        assert(s0[p as int].ids@[wj] == i);
        assert(j < b.ids@.len());
    }
    let ghost jr = j as int;
    b.ids.remove(j);
    if b.ids.len() > 0 {
        index.insert(p, b);
        proof {
            let s2 = final(index)@;
            assert(s2 =~= s0.update(p as int, TimeBucket { time: t, ids: b.ids }));
            assert forall|a2: int, b2: int| 0 <= a2 < b2 < s2.len() implies (
            #[trigger] s2[a2]).time < (#[trigger] s2[b2]).time by {
                assert(s2[a2].time == s0[a2].time && s2[b2].time == s0[b2].time);
            }
            assert forall|t2: u64, i2: u64|
                idx_has(s0, t2, i2) && !(t2 == t && i2 == i) implies #[trigger] idx_has(
                s2,
                t2,
                i2,
            ) by {
                let (wb, wj) = choose|wb: int, wj: int|
                    0 <= wb < s0.len() && 0 <= wj < s0[wb].ids@.len() && s0[wb].time == t2
                        && s0[wb].ids@[wj] == i2;
                if wb != p as int {
                    assert(s2[wb].ids@[wj] == i2);
                } else {
                    assert(i2 != i);
                    assert(wj != jr);
                    if wj < jr {
                        assert(s2[wb].ids@[wj] == i2);
                    } else {
                        assert(s2[wb].ids@[wj - 1] == i2);
                    }
                }
            }
            assert forall|t2: u64, i2: u64| #[trigger] idx_has(s2, t2, i2) implies (idx_has(
                s0,
                t2,
                i2,
            ) && !(t2 == t && i2 == i)) by {
                let (wb, wj) = choose|wb: int, wj: int|
                    0 <= wb < s2.len() && 0 <= wj < s2[wb].ids@.len() && s2[wb].time == t2
                        && s2[wb].ids@[wj] == i2;
                if wb != p as int {
                    assert(s0[wb].ids@[wj] == i2);
                    assert(s0[wb].time != t);
                } else {
                    if wj < jr {
                        assert(s0[wb].ids@[wj] == i2);
                        assert(i2 != i);
                    } else {
                        assert(s0[wb].ids@[wj + 1] == i2);
                        assert(i2 != i);
                    }
                }
            }
        }
    } else {
        proof {
            let s2 = final(index)@;
            assert(s2 =~= s0.remove(p as int));
            assert(s0[p as int].ids@.len() == 1);
            assert(s0[p as int].ids@[0] == i);
            assert forall|t2: u64, i2: u64|
                idx_has(s0, t2, i2) && !(t2 == t && i2 == i) implies #[trigger] idx_has(
                s2,
                t2,
                i2,
            ) by {
                let (wb, wj) = choose|wb: int, wj: int|
                    0 <= wb < s0.len() && 0 <= wj < s0[wb].ids@.len() && s0[wb].time == t2
                        && s0[wb].ids@[wj] == i2;
                if wb < p as int {
                    assert(s2[wb].ids@[wj] == i2);
                } else {
                    assert(wb != p as int);
                    assert(s2[wb - 1].ids@[wj] == i2);
                }
            }
            assert forall|t2: u64, i2: u64| #[trigger] idx_has(s2, t2, i2) implies (idx_has(
                s0,
                t2,
                i2,
            ) && !(t2 == t && i2 == i)) by {
                let (wb, wj) = choose|wb: int, wj: int|
                    0 <= wb < s2.len() && 0 <= wj < s2[wb].ids@.len() && s2[wb].time == t2
                        && s2[wb].ids@[wj] == i2;
                if wb < p as int {
                    assert(s0[wb].ids@[wj] == i2);
                    assert(s0[wb].time < t);
                } else {
                    assert(s0[wb + 1].ids@[wj] == i2);
                    assert(s0[wb + 1].time > t);
                }
            }
        }
    }
}

/// Add id `i` to the bucket with time `t`, creating the bucket at its sorted
/// position if absent. Exactly the pair `(t, i)` appears in the index.
fn bucket_add(index: &mut Vec<TimeBucket>, t: u64, i: u64)
    requires
        structure(old(index)@),
        !idx_has(old(index)@, t, i),
    ensures
        structure(final(index)@),
        forall|t2: u64, i2: u64|
            #[trigger] idx_has(final(index)@, t2, i2) <==> (idx_has(old(index)@, t2, i2) || (t2
                == t && i2 == i)),
{
    let ghost s0 = index@;
    let p = bucket_pos(index, t);
    let have = p < index.len() && index[p].time == t;
    if have {
        let mut b = index.remove(p);
        proof {
            assert forall|k: int| 0 <= k < b.ids@.len() implies (#[trigger] b.ids@[k]) != i by {
                if b.ids@[k] == i {
                    assert(s0[p as int].ids@[k] == i);
                    assert(idx_has(s0, t, i));
                }
            }
        }
        b.ids.push(i);
        index.insert(p, b);
        proof {
            let s2 = final(index)@;
            assert(s2 =~= s0.update(p as int, TimeBucket { time: t, ids: b.ids }));
            let ghost n = s0[p as int].ids@.len();
            assert forall|a2: int, b2: int| 0 <= a2 < b2 < s2.len() implies (
            #[trigger] s2[a2]).time < (#[trigger] s2[b2]).time by {
                assert(s2[a2].time == s0[a2].time && s2[b2].time == s0[b2].time);
            }
            assert forall|t2: u64, i2: u64|
                idx_has(s0, t2, i2) || (t2 == t && i2 == i) implies #[trigger] idx_has(
                s2,
                t2,
                i2,
            ) by {
                if t2 == t && i2 == i {
                    assert(s2[p as int].ids@[n as int] == i);
                } else {
                    let (wb, wj) = choose|wb: int, wj: int|
                        0 <= wb < s0.len() && 0 <= wj < s0[wb].ids@.len() && s0[wb].time == t2
                            && s0[wb].ids@[wj] == i2;
                    assert(s2[wb].ids@[wj] == i2);
                }
            }
            assert forall|t2: u64, i2: u64| #[trigger] idx_has(s2, t2, i2) implies (idx_has(
                s0,
                t2,
                i2,
            ) || (t2 == t && i2 == i)) by {
                let (wb, wj) = choose|wb: int, wj: int|
                    0 <= wb < s2.len() && 0 <= wj < s2[wb].ids@.len() && s2[wb].time == t2
                        && s2[wb].ids@[wj] == i2;
                if wb == p as int && wj == n as int {
                    assert(i2 == i && t2 == t);
                } else {
                    assert(s0[wb].ids@[wj] == i2);
                }
            }
        }
    } else {
        let mut ids: Vec<u64> = Vec::new();
        ids.push(i);
        index.insert(p, TimeBucket { time: t, ids });
        proof {
            let s2 = final(index)@;
            assert(s2 =~= s0.insert(p as int, TimeBucket { time: t, ids: ids }));
            assert forall|a2: int, b2: int| 0 <= a2 < b2 < s2.len() implies (
            #[trigger] s2[a2]).time < (#[trigger] s2[b2]).time by {
                if b2 < p as int {
                } else if a2 > p as int {
                    assert(s2[a2] == s0[a2 - 1] && s2[b2] == s0[b2 - 1]);
                } else if a2 == p as int {
                    assert(s2[b2] == s0[b2 - 1]);
                    assert(s0[b2 - 1].time >= t);
                    assert(s0[b2 - 1].time != t);
                } else if b2 == p as int {
                    assert(s2[a2] == s0[a2]);
                } else {
                    assert(s2[a2] == s0[a2] && s2[b2] == s0[b2 - 1]);
                    assert(s0[b2 - 1].time >= t);
                }
            }
            assert forall|t2: u64, i2: u64|
                idx_has(s0, t2, i2) || (t2 == t && i2 == i) implies #[trigger] idx_has(
                s2,
                t2,
                i2,
            ) by {
                if t2 == t && i2 == i {
                    assert(s2[p as int].ids@[0] == i);
                } else {
                    let (wb, wj) = choose|wb: int, wj: int|
                        0 <= wb < s0.len() && 0 <= wj < s0[wb].ids@.len() && s0[wb].time == t2
                            && s0[wb].ids@[wj] == i2;
                    if wb < p as int {
                        assert(s2[wb].ids@[wj] == i2);
                    } else {
                        assert(s2[wb + 1].ids@[wj] == i2);
                    }
                }
            }
            assert forall|t2: u64, i2: u64| #[trigger] idx_has(s2, t2, i2) implies (idx_has(
                s0,
                t2,
                i2,
            ) || (t2 == t && i2 == i)) by {
                let (wb, wj) = choose|wb: int, wj: int|
                    0 <= wb < s2.len() && 0 <= wj < s2[wb].ids@.len() && s2[wb].time == t2
                        && s2[wb].ids@[wj] == i2;
                if wb == p as int {
                    assert(i2 == i && t2 == t);
                } else if wb < p as int {
                    assert(s0[wb].ids@[wj] == i2);
                } else {
                    assert(s0[wb - 1].ids@[wj] == i2);
                }
            }
        }
    }
}

/// The bucket-index strategy: a hash index from item id to its current
/// expiry, and the sorted bucket index grouping items by expiry time.
pub struct TreeCleanup<C: Clock> {
    /// The clock this set reads its notion of "now" from.
    pub clock: C,
    expiration_times: HashMap<u64, u64>,
    expiration_index: Vec<TimeBucket>,
}

impl<C: Clock> TreeCleanup<C> {
    /// An empty set reading a freshly started clock.
    pub fn new() -> (s: TreeCleanup<C>)
        ensures
            s.wf(),
            s.members() == Map::<u64, u64>::empty(),
            s.bucket_count() == 0,
            s.time() == 0,
            s.tick() == 1,
    {
        TreeCleanup {
            clock: C::start(),
            expiration_times: HashMap::new(),
            expiration_index: Vec::new(),
        }
    }

    /// Move the embedded clock forward by `duration` milliseconds; the
    /// recorded memberships and their buckets are untouched.
    pub fn advance_clock(&mut self, duration: u64)
        requires
            old(self).wf(),
        ensures
            final(self).wf(),
            final(self).members() == old(self).members(),
            final(self).bucket_count() == old(self).bucket_count(),
            final(self).time() == spec_sat_add(old(self).time(), duration),
            final(self).tick() == old(self).tick(),
    {
        self.clock.advance(duration);
    }

    /// The number of pending time buckets.
    pub closed spec fn bucket_count(&self) -> nat {
        self.expiration_index@.len()
    }

    /// The number of pending time buckets.
    pub fn backlog(&self) -> (n: usize)
        ensures
            n == self.bucket_count(),
    {
        self.expiration_index.len()
    }

    /// Detach every leading bucket whose time is at or before `threshold`
    /// and drop all its ids from the hash index. Afterwards exactly the
    /// entries with a future expiry remain; if nothing was still live, no
    /// bucket remains either.
    pub fn incremental_clean(&mut self, threshold: u64)
        requires
            old(self).wf(),
        ensures
            final(self).wf(),
            final(self).time() == old(self).time(),
            final(self).tick() == old(self).tick(),
            forall|i: u64|
                #[trigger] final(self).members().contains_key(i) <==> (old(
                    self,
                ).members().contains_key(i) && old(self).members()[i] > threshold),
            forall|i: u64|
                #[trigger] final(self).members().contains_key(i) ==> final(self).members()[i]
                    == old(self).members()[i],
            final(self).bucket_count() <= old(self).bucket_count(),
            (forall|i: u64|
                old(self).members().contains_key(i) ==> old(self).members()[i] <= threshold)
                ==> final(self).bucket_count() == 0,
    {
        broadcast use vstd::std_specs::hash::group_hash_axioms;

        loop
            invariant
                self.wf(),
                self.time() == old(self).time(),
                self.tick() == old(self).tick(),
                forall|i: u64|
                    #[trigger] self.members().contains_key(i) ==> old(
                        self,
                    ).members().contains_key(i) && self.members()[i] == old(self).members()[i],
                forall|i: u64|
                    old(self).members().contains_key(i) && old(self).members()[i] > threshold
                        ==> #[trigger] self.members().contains_key(i),
                self.bucket_count() <= old(self).bucket_count(),
            ensures
                self.wf(),
                self.time() == old(self).time(),
                self.tick() == old(self).tick(),
                forall|i: u64|
                    #[trigger] self.members().contains_key(i) ==> old(
                        self,
                    ).members().contains_key(i) && self.members()[i] == old(self).members()[i],
                forall|i: u64|
                    old(self).members().contains_key(i) && old(self).members()[i] > threshold
                        ==> #[trigger] self.members().contains_key(i),
                self.bucket_count() <= old(self).bucket_count(),
                forall|i: u64| #[trigger] self.members().contains_key(i) ==> self.members()[i]
                    > threshold,
            decreases self.expiration_index@.len(),
        {
            let cont: bool = if self.expiration_index.len() == 0 {
                false
            } else {
                self.expiration_index[0].time <= threshold
            };
            if !cont {
                proof {
                    assert forall|i: u64| #[trigger] self.members().contains_key(i) implies
                        self.members()[i] > threshold by {
                        let s = self.expiration_index@;
                        let (wb, wj) = choose|wb: int, wj: int|
                            0 <= wb < s.len() && 0 <= wj < s[wb].ids@.len() && s[wb].time
                                == self.members()[i] && s[wb].ids@[wj] == i;
                        assert(s[0].time <= s[wb].time);
                    }
                }
                break ;
            }
            let ghost pre = *self;
            let b = self.expiration_index.remove(0);
            let mut j: usize = 0;
            while j < b.ids.len()
                invariant
                    j <= b.ids@.len(),
                    structure(pre.expiration_index@),
                    pre.expiration_index@.len() > 0,
                    pre.expiration_index@[0].time == b.time,
                    b.ids@ == pre.expiration_index@[0].ids@,
                    self.expiration_index@ == pre.expiration_index@.remove(0),
                    self.clock == pre.clock,
                    forall|i: u64|
                        #[trigger] self.expiration_times@.contains_key(i)
                            ==> pre.expiration_times@.contains_key(i) && self.expiration_times@[i]
                            == pre.expiration_times@[i],
                    forall|i: u64|
                        #[trigger] self.expiration_times@.contains_key(i)
                            ==> forall|k: int| 0 <= k < j ==> (#[trigger] b.ids@[k]) != i,
                    forall|i: u64|
                        pre.expiration_times@.contains_key(i) && (forall|k: int|
                            0 <= k < j ==> (#[trigger] b.ids@[k]) != i)
                            ==> self.expiration_times@.contains_key(i),
                decreases b.ids@.len() - j,
            {
                broadcast use vstd::std_specs::hash::group_hash_axioms;

                self.expiration_times.remove(&b.ids[j]);
                j = j + 1;
            }
            proof {
                let s0 = pre.expiration_index@;
                let s2 = self.expiration_index@;
                assert forall|i: u64| #[trigger] self.members().contains_key(i) implies old(
                    self,
                ).members().contains_key(i) && self.members()[i] == old(self).members()[i] by {
                    assert(pre.members().contains_key(i));
                }
                assert forall|i: u64|
                    old(self).members().contains_key(i) && old(self).members()[i]
                        > threshold implies #[trigger] self.members().contains_key(i) by {
                    assert(pre.members().contains_key(i));
                    assert forall|k: int| 0 <= k < b.ids@.len() implies (#[trigger] b.ids@[k])
                        != i by {
                        if b.ids@[k] == i {
                            assert(pre.expiration_times@[i] == b.time);
                        }
                    }
                }
                assert forall|i: u64| #[trigger] self.expiration_times@.contains_key(i) implies
                    idx_has(s2, self.expiration_times@[i], i) by {
                    assert(pre.expiration_times@.contains_key(i));
                    assert(idx_has(s0, pre.expiration_times@[i], i));
                    let (wb, wj) = choose|wb: int, wj: int|
                        0 <= wb < s0.len() && 0 <= wj < s0[wb].ids@.len() && s0[wb].time
                            == pre.expiration_times@[i] && s0[wb].ids@[wj] == i;
                    if wb == 0 {
                        assert(b.ids@[wj] == i);
                        assert(false);
                    }
                    assert(s2[wb - 1].ids@[wj] == i);
                }
                assert forall|b2: int, j2: int|
                    0 <= b2 < s2.len() && 0 <= j2 < s2[b2].ids@.len() implies
                    self.expiration_times@.contains_key(#[trigger] s2[b2].ids@[j2])
                        && self.expiration_times@[s2[b2].ids@[j2]] == s2[b2].time by {
                    assert(s2[b2] == s0[b2 + 1]);
                    let i = s0[b2 + 1].ids@[j2];
                    assert(pre.expiration_times@.contains_key(i) && pre.expiration_times@[i] == s0[
                        b2 + 1].time);
                    assert forall|k: int| 0 <= k < b.ids@.len() implies (#[trigger] b.ids@[k])
                        != i by {
                        if b.ids@[k] == i {
                            assert(pre.expiration_times@[i] == b.time);
                            assert(s0[0].time < s0[b2 + 1].time);
                        }
                    }
                }
            }
        }
        proof {
            if forall|i: u64|
                old(self).members().contains_key(i) ==> old(self).members()[i] <= threshold {
                if self.expiration_index@.len() > 0 {
                    let s = self.expiration_index@;
                    let i0 = s[0].ids@[0];
                    assert(self.expiration_times@.contains_key(i0));
                    assert(self.members()[i0] > threshold);
                    assert(false);
                }
            }
        }
    }
}

impl<C: Clock> TtlSet for TreeCleanup<C> {
    closed spec fn wf(&self) -> bool {
        &&& structure(self.expiration_index@)
        &&& forall|i: u64|
            #[trigger] self.expiration_times@.contains_key(i) ==> idx_has(
                self.expiration_index@,
                self.expiration_times@[i],
                i,
            )
        &&& forall|b: int, j: int|
            0 <= b < self.expiration_index@.len() && 0 <= j < self.expiration_index@[b].ids@.len()
                ==> self.expiration_times@.contains_key(
                #[trigger] self.expiration_index@[b].ids@[j],
            ) && self.expiration_times@[self.expiration_index@[b].ids@[j]]
                == self.expiration_index@[b].time
    }

    closed spec fn members(&self) -> Map<u64, u64> {
        self.expiration_times@
    }

    closed spec fn time(&self) -> u64 {
        self.clock.time()
    }

    closed spec fn tick(&self) -> u64 {
        self.clock.quantum()
    }

    fn insert(&mut self, item: u64, duration: u64) {
        broadcast use vstd::std_specs::hash::group_hash_axioms;

        let now = self.clock.now();
        let expiry = sat_add(now, duration);
        let prev: Option<u64> = match self.expiration_times.get(&item) {
            Some(p) => Some(*p),
            None => None,
        };
        let ghost mid = *self;
        match prev {
            Some(p) => {
                bucket_remove(&mut self.expiration_index, p, item);
                proof {
                    assert forall|i: u64| #[trigger] self.expiration_times@.contains_key(i) && i
                        != item implies idx_has(
                        self.expiration_index@,
                        self.expiration_times@[i],
                        i,
                    ) by {
                        assert(idx_has(mid.expiration_index@, self.expiration_times@[i], i));
                    }
                }
            },
            None => {},
        }
        let ghost mid2 = *self;
        proof {
            if idx_has(self.expiration_index@, expiry, item) {
                assert(self.expiration_times@.contains_key(item));
                assert(prev is Some);
                assert(false);
            }
        }
        bucket_add(&mut self.expiration_index, expiry, item);
        self.expiration_times.insert(item, expiry);
        proof {
            assert forall|i: u64| #[trigger] self.expiration_times@.contains_key(i) implies
                idx_has(self.expiration_index@, self.expiration_times@[i], i) by {
                if i == item {
                    assert(idx_has(self.expiration_index@, expiry, item));
                } else {
                    assert(mid2.expiration_times@.contains_key(i));
                    assert(idx_has(mid2.expiration_index@, mid2.expiration_times@[i], i));
                }
            }
            assert forall|b: int, j: int|
                0 <= b < self.expiration_index@.len() && 0 <= j
                    < self.expiration_index@[b].ids@.len() implies
                self.expiration_times@.contains_key(#[trigger] self.expiration_index@[b].ids@[j])
                    && self.expiration_times@[self.expiration_index@[b].ids@[j]]
                    == self.expiration_index@[b].time by {
                let i = self.expiration_index@[b].ids@[j];
                let tb = self.expiration_index@[b].time;
                assert(idx_has(self.expiration_index@, tb, i));
                if i == item {
                    assert(!idx_has(mid2.expiration_index@, tb, i));
                    assert(tb == expiry);
                } else {
                    assert(idx_has(mid2.expiration_index@, tb, i));
                    assert(mid2.expiration_times@.contains_key(i));
                    assert(mid2.expiration_times@[i] == tb) by {
                        if prev is Some {
                            assert(idx_has(mid.expiration_index@, tb, i));
                        }
                    }
                }
            }
            assert(self.members() =~= old(self).members().insert(item, expiry));
        }
    }

    fn contains(&mut self, item: u64) -> (r: bool)
        ensures
            final(self).bucket_count() <= old(self).bucket_count(),
            (forall|i: u64|
                old(self).members().contains_key(i) ==> old(self).members()[i]
                    <= final(self).time()) ==> final(self).bucket_count() == 0,
    {
        broadcast use vstd::std_specs::hash::group_hash_axioms;

        let now = self.clock.now();
        self.incremental_clean(now);
        let r = self.expiration_times.contains_key(&item);
        proof {
            assert forall|i: u64, t2: u64| t2 >= now implies live(final(self).members(), t2, i)
                == live(old(self).members(), t2, i) by {
                if old(self).members().contains_key(i) && old(self).members()[i] > now {
                    assert(final(self).members().contains_key(i));
                }
            }
        }
        r
    }
}

} // verus!
