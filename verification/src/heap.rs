//! A max-oriented binary heap whose entries stay reachable through stable
//! handles.
//!
//! Every inserted item is paired with a position cell in a side table; the
//! cell always holds the item's current index in the dense heap array, and
//! every swap updates both affected cells. A `Handle` names a cell together
//! with the generation at which it was issued, so once the entry is removed
//! (and the cell's generation bumped) the handle is detected as stale instead
//! of silently reaching an unrelated item.
use vstd::prelude::*;

verus! {

use vstd::multiset::Multiset;
use vstd::seq_lib::group_to_multiset_ensures;

/// An element that carries its own priority, as a mathematical key.
/// The heap surfaces the element with the greatest key first.
pub trait Priority: Sized + Copy {
    /// The priority of this element.
    spec fn key(&self) -> int;

    /// Compare two elements by priority.
    fn above(&self, other: &Self) -> (r: bool)
        ensures
            r == (self.key() > other.key()),
    ;
}

impl Priority for u64 {
    open spec fn key(&self) -> int {
        *self as int
    }

    fn above(&self, other: &Self) -> (r: bool) {
        *self > *other
    }
}

/// A stable reference to one heap entry: the index of its position cell and
/// the generation at which the handle was issued.
#[derive(Clone, Copy, Debug)]
pub struct Handle {
    cell: usize,
    gen: u64,
}

/// Using a handle whose entry has already been removed from the heap.
#[derive(Clone, Copy, Debug)]
pub struct StaleHandle;

#[derive(Clone, Copy)]
struct Slot<T> {
    item: T,
    cell: usize,
}

#[derive(Clone, Copy)]
struct PosCell {
    pos: usize,
    gen: u64,
    live: bool,
}

/// The heap: a dense array of slots ordered by the max-heap property, a side
/// table of position cells, and a free list of retired cell indices awaiting
/// reuse under a fresh generation.
pub struct MutHeap<T> {
    slots: Vec<Slot<T>>,
    cells: Vec<PosCell>,
    free: Vec<usize>,
}

/// The parent index in the implicit binary tree laid out in the array.
pub open spec fn parent(i: int) -> int {
    (i - 1) / 2
}

impl<T: Priority> MutHeap<T> {
    /// The items currently held, in array order (the root first).
    pub closed spec fn items(&self) -> Seq<T> {
        self.slots@.map_values(|s: Slot<T>| s.item)
    }

    /// The items currently held, as a multiset.
    pub open spec fn mset(&self) -> Multiset<T> {
        self.items().to_multiset()
    }

    /// The number of items currently held.
    pub open spec fn len(&self) -> nat {
        self.items().len()
    }

    /// A handle is valid when its cell is still live at the generation the
    /// handle was issued with.
    pub closed spec fn valid(&self, h: Handle) -> bool {
        &&& h.cell < self.cells@.len()
        &&& self.cells@[h.cell as int].live
        &&& self.cells@[h.cell as int].gen == h.gen
    }

    /// The current array position of a valid handle's entry.
    pub closed spec fn pos_of(&self, h: Handle) -> int {
        self.cells@[h.cell as int].pos as int
    }

    /// The item a valid handle currently refers to.
    pub open spec fn item_of(&self, h: Handle) -> T {
        self.items()[self.pos_of(h)]
    }

    /// A handle whose entry has been removed from the heap: its cell's
    /// generation has moved past the handle's, or its cell is dead and not
    /// available for reuse. Every operation preserves retirement and `insert`
    /// never returns a retired handle, so a retired handle stays stale
    /// forever, however many entries are inserted or removed later.
    pub closed spec fn retired(&self, h: Handle) -> bool {
        &&& h.cell < self.cells@.len()
        &&& (h.gen < self.cells@[h.cell as int].gen || (h.gen == self.cells@[h.cell as int].gen
            && !self.cells@[h.cell as int].live && !self.free@.contains(h.cell)))
    }

    /// A retired handle does not resolve.
    pub proof fn lemma_retired_is_stale(&self, h: Handle)
        requires
            self.retired(h),
        ensures
            !self.valid(h),
    {
    }

    /// The slot/cell bookkeeping invariant: each slot's cell is live and
    /// points back at the slot, each live cell is pointed at by its slot, and
    /// the free list holds distinct dead cells awaiting reuse.
    closed spec fn links_ok(&self) -> bool {
        let s = self.slots@;
        let c = self.cells@;
        let f = self.free@;
        &&& forall|i: int|
            0 <= i < s.len() ==> (#[trigger] s[i].cell) < c.len() && c[s[i].cell as int].live
                && c[s[i].cell as int].pos == i
        &&& forall|j: int|
            0 <= j < c.len() && (#[trigger] c[j].live) ==> c[j].pos < s.len() && s[c[j].pos as int].cell
                == j
        &&& forall|k: int| 0 <= k < f.len() ==> (#[trigger] f[k]) < c.len() && !c[f[k] as int].live
        &&& forall|k1: int, k2: int| 0 <= k1 < k2 < f.len() ==> f[k1] != f[k2]
    }

    /// The heap is well formed: bookkeeping is consistent and the array
    /// satisfies the max-heap ordering.
    pub closed spec fn wf(&self) -> bool {
        self.links_ok() && heap_ordered(self.items())
    }

    /// Every slot is reachable through some valid handle.
    pub proof fn lemma_slot_has_handle(&self, k: int)
        requires
            self.wf(),
            0 <= k < self.len(),
        ensures
            exists|h: Handle|
                self.valid(h) && self.pos_of(h) == k && self.item_of(h) == self.items()[k],
    {
        let c = self.slots@[k].cell;
        let h = Handle { cell: c, gen: self.cells@[c as int].gen };
        assert(self.valid(h) && self.pos_of(h) == k);
    }

    /// A valid handle's entry is within bounds and among the held items.
    pub proof fn lemma_valid_handle_in_heap(&self, h: Handle)
        requires
            self.wf(),
            self.valid(h),
        ensures
            0 <= self.pos_of(h) < self.len(),
            self.mset().contains(self.item_of(h)),
    {
        broadcast use group_to_multiset_ensures;

        assert(self.items()[self.pos_of(h)] == self.item_of(h));
        assert(self.items().contains(self.item_of(h)));
    }

    /// Two distinct valid handles hold distinct entries, so an item they
    /// both show is held at least twice.
    pub proof fn lemma_distinct_handles_count(&self, h1: Handle, h2: Handle)
        requires
            self.wf(),
            self.valid(h1),
            self.valid(h2),
            h1 != h2,
            self.item_of(h1) == self.item_of(h2),
        ensures
            self.mset().count(self.item_of(h1)) >= 2,
    {
        broadcast use group_to_multiset_ensures;
        broadcast use vstd::multiset::group_multiset_axioms;

        let p1 = self.pos_of(h1);
        let p2 = self.pos_of(h2);
        if p1 == p2 {
            self.lemma_valid_handle_unique(h1, h2);
        }
        self.lemma_valid_handle_in_heap(h1);
        self.lemma_valid_handle_in_heap(h2);
        let s = self.items();
        let v = self.item_of(h1);
        assert(s.remove(p1).to_multiset() == s.to_multiset().remove(v));
        if p2 < p1 {
            assert(s.remove(p1)[p2] == v);
        } else {
            assert(s.remove(p1)[p2 - 1] == v);
        }
        assert(s.remove(p1).contains(v));
        assert(s.remove(p1).to_multiset().count(v) > 0);
    }

    /// Two valid handles to the same position are the same handle.
    pub proof fn lemma_valid_handle_unique(&self, h1: Handle, h2: Handle)
        requires
            self.wf(),
            self.valid(h1),
            self.valid(h2),
            self.pos_of(h1) == self.pos_of(h2),
        ensures
            h1 == h2,
    {
        let p = self.pos_of(h1);
        assert(self.slots@[p].cell == h1.cell && self.slots@[p].cell == h2.cell);
    }
}

/// Position `i` respects the heap ordering with respect to its parent.
pub open spec fn ordered_at<T: Priority>(s: Seq<T>, i: int) -> bool {
    s[parent(i)].key() >= s[i].key()
}

/// The max-heap ordering over the array: every non-root element is bounded by
/// its parent.
pub open spec fn heap_ordered<T: Priority>(s: Seq<T>) -> bool {
    forall|i: int| 1 <= i < s.len() ==> #[trigger] ordered_at(s, i)
}

/// The heap ordering, except that `idx` may exceed its parent; `idx`'s
/// children are still bounded by `idx`'s parent, so a swap stays ordered.
spec fn up_heap_except<T: Priority>(s: Seq<T>, idx: int) -> bool {
    &&& forall|i: int| 1 <= i < s.len() && i != idx ==> #[trigger] ordered_at(s, i)
    &&& forall|i: int|
        1 <= i < s.len() && parent(i) == idx && idx > 0 ==> s[parent(idx)].key() >= (
        #[trigger] s[i]).key()
}

/// The heap ordering, except that `idx`'s children may exceed `idx`; they are
/// still bounded by `idx`'s parent, so a swap stays ordered.
spec fn down_heap_except<T: Priority>(s: Seq<T>, idx: int) -> bool {
    &&& forall|i: int| 1 <= i < s.len() && parent(i) != idx ==> #[trigger] ordered_at(s, i)
    &&& forall|i: int|
        1 <= i < s.len() && parent(i) == idx && idx > 0 ==> s[parent(idx)].key() >= (
        #[trigger] s[i]).key()
}

/// In an ordered heap the root bounds every element.
proof fn lemma_root_is_max<T: Priority>(s: Seq<T>, i: int)
    requires
        heap_ordered(s),
        0 <= i < s.len(),
    ensures
        s[0].key() >= s[i].key(),
    decreases i,
{
    if i > 0 {
        assert(ordered_at(s, i));
        lemma_root_is_max(s, parent(i));
    }
}

/// Updating one position rewrites the multiset accordingly.
proof fn lemma_update_to_multiset<T>(s: Seq<T>, i: int, v: T)
    requires
        0 <= i < s.len(),
    ensures
        s.update(i, v).to_multiset() == s.to_multiset().remove(s[i]).insert(v),
{
    broadcast use group_to_multiset_ensures;

    let u = s.update(i, v);
    assert(u.remove(i) =~= s.remove(i));
    assert(u.remove(i).to_multiset() == u.to_multiset().remove(u[i]));
    assert(s.remove(i).to_multiset() == s.to_multiset().remove(s[i]));
    assert(s.contains(s[i]));
    assert(u.contains(u[i]));
    assert(s.to_multiset().count(s[i]) > 0);
    assert(u.to_multiset().count(u[i]) > 0);
    assert(u.to_multiset().remove(u[i]).insert(u[i]) =~= u.to_multiset());
    assert(u.to_multiset() == s.to_multiset().remove(s[i]).insert(v));
}

/// Swapping two positions leaves the multiset unchanged.
proof fn lemma_swap_to_multiset<T>(s: Seq<T>, i: int, j: int)
    requires
        0 <= i < s.len(),
        0 <= j < s.len(),
        i != j,
    ensures
        s.update(i, s[j]).update(j, s[i]).to_multiset() == s.to_multiset(),
{
    let s1 = s.update(i, s[j]);
    let s2 = s1.update(j, s[i]);
    lemma_update_to_multiset(s, i, s[j]);
    lemma_update_to_multiset(s1, j, s[i]);
    assert(s1[j] == s[j]);
    assert(s2.to_multiset() == s.to_multiset().remove(s[i]).insert(s[j]).remove(s[j]).insert(
        s[i],
    ));
    assert(s.to_multiset().remove(s[i]).insert(s[j]).remove(s[j]) =~= s.to_multiset().remove(
        s[i],
    ));
    broadcast use group_to_multiset_ensures;

    assert(s.contains(s[i]));
    assert(s.to_multiset().count(s[i]) > 0);
    assert(s.to_multiset().remove(s[i]).insert(s[i]) =~= s.to_multiset());
}

impl<T: Priority> MutHeap<T> {
    /// Swap the slots at `i` and `j`, updating both position cells so every
    /// handle keeps resolving to its own item.
    fn swap_slots(&mut self, i: usize, j: usize)
        requires
            old(self).links_ok(),
            i < old(self).slots@.len(),
            j < old(self).slots@.len(),
            i != j,
        ensures
            final(self).links_ok(),
            final(self).items() == old(self).items().update(i as int, old(self).items()[j as int])
                .update(j as int, old(self).items()[i as int]),
            final(self).mset() == old(self).mset(),
            final(self).slots@.len() == old(self).slots@.len(),
            final(self).cells@.len() == old(self).cells@.len(),
            final(self).free@ == old(self).free@,
            forall|x: int|
                0 <= x < old(self).cells@.len() ==> (#[trigger] final(self).cells@[x]).live == old(
                    self,
                ).cells@[x].live && final(self).cells@[x].gen == old(self).cells@[x].gen,
            forall|h: Handle| final(self).valid(h) == old(self).valid(h),
            forall|h: Handle|
                old(self).valid(h) ==> final(self).item_of(h) == old(self).item_of(h),
    {
        let si = self.slots[i];
        let sj = self.slots[j];
        self.slots[i] = sj;
        self.slots[j] = si;
        self.cells[si.cell].pos = j;
        self.cells[sj.cell].pos = i;
        proof {
            assert(final(self).items() =~= old(self).items().update(
                i as int,
                old(self).items()[j as int],
            ).update(j as int, old(self).items()[i as int]));
            lemma_swap_to_multiset(old(self).items(), i as int, j as int);
            assert forall|h: Handle| old(self).valid(h) implies final(self).item_of(h) == old(
                self,
            ).item_of(h) by {
                let c = h.cell as int;
                if c == si.cell {
                    assert(old(self).pos_of(h) == i as int);
                    assert(final(self).pos_of(h) == j as int);
                } else if c == sj.cell {
                    assert(old(self).pos_of(h) == j as int);
                    assert(final(self).pos_of(h) == i as int);
                } else {
                    assert(final(self).pos_of(h) == old(self).pos_of(h));
                    assert(old(self).pos_of(h) != i as int && old(self).pos_of(h) != j as int);
                }
            }
        }
    }

    /// Move the element at `idx` toward the root until the heap ordering
    /// holds again. Used after an element's priority has risen.
    fn percolate_up(&mut self, idx: usize)
        requires
            old(self).links_ok(),
            idx < old(self).slots@.len(),
            up_heap_except(old(self).items(), idx as int),
        ensures
            final(self).links_ok(),
            heap_ordered(final(self).items()),
            final(self).mset() == old(self).mset(),
            final(self).slots@.len() == old(self).slots@.len(),
            final(self).cells@.len() == old(self).cells@.len(),
            final(self).free@ == old(self).free@,
            forall|x: int|
                0 <= x < old(self).cells@.len() ==> (#[trigger] final(self).cells@[x]).live == old(
                    self,
                ).cells@[x].live && final(self).cells@[x].gen == old(self).cells@[x].gen,
            forall|h: Handle| final(self).valid(h) == old(self).valid(h),
            forall|h: Handle|
                old(self).valid(h) ==> final(self).item_of(h) == old(self).item_of(h),
        decreases idx,
    {
        if idx > 0 {
            let p = (idx - 1) / 2;
            let swap = self.slots[idx].item.above(&self.slots[p].item);
            if swap {
                self.swap_slots(idx, p);
                proof {
                    let s = old(self).items();
                    let s2 = self.items();
                    assert(parent(idx as int) == p as int);
                    assert forall|i: int| 1 <= i < s2.len() && i != p as int implies
                        #[trigger] ordered_at(s2, i) by {
                        if i == idx as int {
                            assert(s2[i] == s[p as int] && s2[parent(i)] == s[idx as int]);
                        } else if parent(i) == idx as int {
                            assert(s2[i] == s[i] && s2[parent(i)] == s[p as int]);
                            assert(s[parent(idx as int)].key() >= s[i].key());
                        } else if parent(i) == p as int {
                            assert(s2[i] == s[i] && s2[parent(i)] == s[idx as int]);
                            assert(ordered_at(s, i));
                        } else {
                            assert(s2[i] == s[i] && s2[parent(i)] == s[parent(i)]);
                            assert(ordered_at(s, i));
                        }
                    }
                    assert forall|i: int|
                        1 <= i < s2.len() && parent(i) == p as int && p > 0 implies s2[parent(
                        p as int,
                    )].key() >= (#[trigger] s2[i]).key() by {
                        assert(s2[parent(p as int)] == s[parent(p as int)]);
                        assert(ordered_at(s, p as int));
                        if i == idx as int {
                            assert(s2[i] == s[p as int]);
                        } else {
                            assert(s2[i] == s[i]);
                            assert(ordered_at(s, i));
                        }
                    }
                    assert(up_heap_except(self.items(), p as int));
                }
                self.percolate_up(p);
            } else {
                proof {
                    let s = self.items();
                    assert forall|i: int| 1 <= i < s.len() implies #[trigger] ordered_at(s, i) by {
                        if i == idx as int {
                            assert(parent(idx as int) == p as int);
                        } else {
                            assert(ordered_at(s, i));
                        }
                    }
                }
            }
        }
    }

    /// Move the element at `idx` toward the leaves until the heap ordering
    /// holds again. Used after an element's priority has dropped.
    fn percolate_down(&mut self, idx: usize)
        requires
            old(self).links_ok(),
            idx < old(self).slots@.len(),
            down_heap_except(old(self).items(), idx as int),
        ensures
            final(self).links_ok(),
            heap_ordered(final(self).items()),
            final(self).mset() == old(self).mset(),
            final(self).slots@.len() == old(self).slots@.len(),
            final(self).cells@.len() == old(self).cells@.len(),
            final(self).free@ == old(self).free@,
            forall|x: int|
                0 <= x < old(self).cells@.len() ==> (#[trigger] final(self).cells@[x]).live == old(
                    self,
                ).cells@[x].live && final(self).cells@[x].gen == old(self).cells@[x].gen,
            forall|h: Handle| final(self).valid(h) == old(self).valid(h),
            forall|h: Handle|
                old(self).valid(h) ==> final(self).item_of(h) == old(self).item_of(h),
        decreases old(self).slots@.len() - idx,
    {
        let len = self.slots.len();
        let mut hi = idx;
        if len - idx > idx + 1 {
            let l = 2 * idx + 1;
            if self.slots[l].item.above(&self.slots[hi].item) {
                hi = l;
            }
            if len - idx > idx + 2 {
                let r = 2 * idx + 2;
                if self.slots[r].item.above(&self.slots[hi].item) {
                    hi = r;
                }
            }
        }
        if hi != idx {
            proof {
                assert(parent(hi as int) == idx as int);
            }
            self.swap_slots(idx, hi);
            proof {
                let s = old(self).items();
                let s2 = self.items();
                assert forall|i: int| 1 <= i < s2.len() && parent(i) != hi as int implies
                    #[trigger] ordered_at(s2, i) by {
                    if i == hi as int {
                        assert(s2[i] == s[idx as int] && s2[parent(i)] == s[hi as int]);
                    } else if parent(i) == idx as int {
                        assert(s2[parent(i)] == s[hi as int] && s2[i] == s[i]);
                        assert(i == 2 * idx + 1 || i == 2 * idx + 2);
                        assert(s[hi as int].key() >= s[i].key());
                    } else if i == idx as int {
                        assert(s2[i] == s[hi as int] && s2[parent(i)] == s[parent(i)]);
                        assert(s[parent(idx as int)].key() >= s[hi as int].key());
                    } else {
                        assert(s2[i] == s[i] && s2[parent(i)] == s[parent(i)]);
                        assert(ordered_at(s, i));
                    }
                }
                assert forall|i: int|
                    1 <= i < s2.len() && parent(i) == hi as int && hi > 0 implies s2[parent(
                    hi as int,
                )].key() >= (#[trigger] s2[i]).key() by {
                    assert(s2[i] == s[i]);
                    assert(s2[parent(hi as int)] == s[hi as int]);
                    assert(ordered_at(s, i));
                }
                assert(down_heap_except(self.items(), hi as int));
            }
            self.percolate_down(hi);
        } else {
            proof {
                let s = self.items();
                assert forall|i: int| 1 <= i < s.len() implies #[trigger] ordered_at(s, i) by {
                    if parent(i) == idx as int {
                        assert(i == 2 * idx + 1 || i == 2 * idx + 2);
                    } else {
                        assert(ordered_at(s, i));
                    }
                }
            }
        }
    }

    /// Append the item, restore the heap ordering by percolating it up, and
    /// return a handle to its (possibly relocated) entry. Every handle issued
    /// earlier keeps referring to its own item, and the returned handle is
    /// the only newly valid one.
    pub fn insert(&mut self, item: T) -> (h: Handle)
        requires
            old(self).wf(),
        ensures
            final(self).wf(),
            final(self).len() == old(self).len() + 1,
            final(self).mset() == old(self).mset().insert(item),
            final(self).valid(h),
            final(self).item_of(h) == item,
            forall|h2: Handle|
                old(self).valid(h2) ==> final(self).valid(h2) && final(self).item_of(h2) == old(
                    self,
                ).item_of(h2),
            forall|h2: Handle| final(self).valid(h2) ==> old(self).valid(h2) || h2 == h,
            forall|h2: Handle| old(self).retired(h2) ==> final(self).retired(h2) && h2 != h,
    {
        broadcast use group_to_multiset_ensures;

        let idx = self.slots.len();
        let cell: usize;
        match self.free.pop() {
            Some(f) => {
                cell = f;
                self.cells[f].pos = idx;
                self.cells[f].live = true;
            },
            None => {
                cell = self.cells.len();
                self.cells.push(PosCell { pos: idx, gen: 0, live: true });
            },
        }
        let gen = self.cells[cell].gen;
        self.slots.push(Slot { item, cell });
        proof {
            assert(self.items() =~= old(self).items().push(item));
            let s2 = self.items();
            assert forall|i: int| 1 <= i < s2.len() && i != idx as int implies
                #[trigger] ordered_at(s2, i) by {
                assert(ordered_at(old(self).items(), i));
                assert(s2[i] == old(self).items()[i] && s2[parent(i)] == old(self).items()[parent(
                    i,
                )]);
            }
            assert(up_heap_except(self.items(), idx as int));
        }
        self.percolate_up(idx);
        let h = Handle { cell, gen };
        proof {
            assert(old(self).items().push(item).to_multiset() == old(self).mset().insert(item));
            assert forall|h2: Handle|
                old(self).valid(h2) implies final(self).valid(h2) && final(self).item_of(h2) == old(
                self,
            ).item_of(h2) by {
                assert(h2.cell != cell);
            }
            assert forall|h2: Handle|
                old(self).retired(h2) implies final(self).retired(h2) && h2 != h by {
                if cell < old(self).cells@.len() {
                    assert(old(self).free@.last() == cell);
                    assert(old(self).free@.contains(cell));
                    if h2.cell == cell {
                        assert(h2.gen < gen);
                    } else {
                        if final(self).free@.contains(h2.cell) {
                        } else if old(self).free@.contains(h2.cell) {
                            let fi = choose|fi: int|
                                0 <= fi < old(self).free@.len() && old(self).free@[fi] == h2.cell;
                            assert(fi < old(self).free@.len() - 1);
                            assert(final(self).free@[fi] == h2.cell);
                            assert(final(self).free@.contains(h2.cell));
                        }
                    }
                } else {
                    assert(h2.cell < old(self).cells@.len());
                    assert(h2.cell != cell);
                    assert(final(self).free@ == old(self).free@);
                }
            }
        }
        h
    }

    /// Remove and return the greatest item (at the root), or nothing if the
    /// heap is empty. The popped item's handle becomes stale forever; every
    /// other handle keeps referring to its own item, even the one of the
    /// entry moved into the vacated root slot.
    pub fn pop_max(&mut self) -> (r: Option<T>)
        requires
            old(self).wf(),
        ensures
            final(self).wf(),
            match r {
                None => old(self).len() == 0 && *final(self) == *old(self),
                Some(x) => {
                    &&& old(self).len() > 0
                    &&& x == old(self).items()[0]
                    &&& old(self).mset().contains(x)
                    &&& forall|e: T| old(self).mset().contains(e) ==> x.key() >= e.key()
                    &&& final(self).len() == old(self).len() - 1
                    &&& final(self).mset() == old(self).mset().remove(x)
                    &&& forall|h: Handle|
                        old(self).valid(h) && old(self).pos_of(h) != 0 ==> final(self).valid(h)
                            && final(self).item_of(h) == old(self).item_of(h)
                    &&& forall|h: Handle|
                        old(self).valid(h) && old(self).pos_of(h) == 0 ==> !final(self).valid(h)
                            && final(self).retired(h)
                    &&& forall|h: Handle| !old(self).valid(h) ==> !final(self).valid(h)
                    &&& forall|h: Handle| old(self).retired(h) ==> final(self).retired(h)
                },
            },
    {
        broadcast use group_to_multiset_ensures;

        if self.slots.len() == 0 {
            return None;
        }
        proof {
            assert forall|e: T| old(self).mset().contains(e) implies old(self).items()[0].key()
                >= e.key() by {
                let s = old(self).items();
                assert(s.contains(e));
                let i = choose|i: int| 0 <= i < s.len() && s[i] == e;
                lemma_root_is_max(s, i);
            }
        }
        let last = self.slots.len() - 1;
        let root = self.slots[0];
        let out = root.item;
        // Retire the popped entry's cell under a fresh generation, so any
        // handle issued for it is detected as stale from now on.
        self.cells[root.cell].live = false;
        if self.cells[root.cell].gen < u64::MAX {
            self.cells[root.cell].gen = self.cells[root.cell].gen + 1;
            self.free.push(root.cell);
        }
        if last > 0 {
            let moved = self.slots[last];
            self.slots[0] = moved;
            self.slots.truncate(last);
            self.cells[moved.cell].pos = 0;
            proof {
                let s = old(self).items();
                let s2 = self.items();
                assert(s2 =~= s.update(0, s[last as int]).remove(last as int));
                lemma_update_to_multiset(s, 0, s[last as int]);
                assert(s.update(0, s[last as int]).remove(last as int).to_multiset() == s.update(
                    0,
                    s[last as int],
                ).to_multiset().remove(s[last as int]));
                assert(s.to_multiset().remove(s[0]).insert(s[last as int]).remove(s[last as int])
                    =~= s.to_multiset().remove(s[0]));
                assert forall|i: int| 1 <= i < s2.len() && parent(i) != 0 implies
                    #[trigger] ordered_at(s2, i) by {
                    assert(ordered_at(s, i));
                    assert(s2[i] == s[i] && s2[parent(i)] == s[parent(i)]);
                }
                assert(down_heap_except(s2, 0));
            }
            self.percolate_down(0);
        } else {
            self.slots.truncate(0);
            proof {
                assert(self.items() =~= Seq::<T>::empty());
                assert(old(self).items().remove(0) =~= Seq::<T>::empty());
            }
        }
        proof {
            assert forall|h: Handle|
                old(self).valid(h) && old(self).pos_of(h) == 0 implies !final(self).valid(h)
                    && final(self).retired(h) by {
                assert(h.cell == root.cell);
                if old(self).free@.contains(root.cell) {
                    let fi = choose|fi: int|
                        0 <= fi < old(self).free@.len() && old(self).free@[fi] == root.cell;
                    assert(!old(self).cells@[old(self).free@[fi] as int].live);
                    assert(false);
                }
            }
            assert forall|h: Handle| old(self).retired(h) implies final(self).retired(h) by {
                if h.cell == root.cell {
                    assert(h.gen < old(self).cells@[root.cell as int].gen);
                } else {
                    if final(self).free@.contains(h.cell) {
                        let fi = choose|fi: int|
                            0 <= fi < final(self).free@.len() && final(self).free@[fi] == h.cell;
                        if fi < old(self).free@.len() {
                            assert(old(self).free@[fi] == h.cell);
                        }
                        assert(old(self).free@.contains(h.cell));
                    }
                }
            }
        }
        Some(out)
    }

    /// A reference to the greatest item (the root), or nothing if empty.
    pub fn peek_max(&self) -> (r: Option<&T>)
        requires
            self.wf(),
        ensures
            match r {
                None => self.len() == 0,
                Some(x) => {
                    &&& self.len() > 0
                    &&& *x == self.items()[0]
                    &&& self.mset().contains(*x)
                    &&& forall|e: T| self.mset().contains(e) ==> x.key() >= e.key()
                },
            },
    {
        if self.slots.len() == 0 {
            None
        } else {
            proof {
                broadcast use group_to_multiset_ensures;

                assert forall|e: T| self.mset().contains(e) implies self.items()[0].key()
                    >= e.key() by {
                    let s = self.items();
                    assert(s.contains(e));
                    let i = choose|i: int| 0 <= i < s.len() && s[i] == e;
                    lemma_root_is_max(s, i);
                }
            }
            Some(&self.slots[0].item)
        }
    }

    /// The number of items currently held.
    pub fn size(&self) -> (n: usize)
        ensures
            n == self.len(),
    {
        self.slots.len()
    }

    /// Raise the entry named by the handle to `new_item`, percolating it up;
    /// an update that would lower the entry's priority is ignored. A stale
    /// handle is detected and reported, with the heap untouched; a valid one
    /// always succeeds, and no other entry is affected.
    pub fn increment(&mut self, h: &Handle, new_item: T) -> (r: Result<(), StaleHandle>)
        requires
            old(self).wf(),
        ensures
            final(self).wf(),
            !old(self).valid(*h) ==> r is Err && *final(self) == *old(self),
            old(self).valid(*h) ==> {
                let cur = old(self).item_of(*h);
                let upd = if new_item.key() >= cur.key() {
                    new_item
                } else {
                    cur
                };
                &&& r is Ok
                &&& final(self).valid(*h) && final(self).item_of(*h) == upd
                &&& final(self).len() == old(self).len()
                &&& final(self).mset() == old(self).mset().remove(cur).insert(upd)
                &&& forall|h2: Handle| final(self).valid(h2) == old(self).valid(h2)
                &&& forall|h2: Handle|
                    old(self).valid(h2) && h2 != *h ==> final(self).item_of(h2) == old(
                        self,
                    ).item_of(h2)
            },
            forall|h2: Handle| final(self).retired(h2) == old(self).retired(h2),
    {
        broadcast use group_to_multiset_ensures;

        if h.cell >= self.cells.len() {
            return Err(StaleHandle);
        }
        let pc = self.cells[h.cell];
        if !pc.live || pc.gen != h.gen {
            return Err(StaleHandle);
        }
        let p = pc.pos;
        let cur = self.slots[p].item;
        proof {
            self.lemma_valid_handle_in_heap(*h);
            assert(self.mset().count(cur) > 0);
        }
        if !cur.above(&new_item) {
            let c = self.slots[p].cell;
            self.slots[p] = Slot { item: new_item, cell: c };
            proof {
                let s = old(self).items();
                let s2 = self.items();
                assert(s2 =~= s.update(p as int, new_item));
                lemma_update_to_multiset(s, p as int, new_item);
                assert forall|i: int| 1 <= i < s2.len() && i != p as int implies
                    #[trigger] ordered_at(s2, i) by {
                    assert(ordered_at(s, i));
                    if parent(i) == p as int {
                        assert(s2[i] == s[i] && s2[parent(i)] == new_item);
                    } else {
                        assert(s2[i] == s[i] && s2[parent(i)] == s[parent(i)]);
                    }
                }
                assert forall|i: int|
                    1 <= i < s2.len() && parent(i) == p as int && p > 0 implies s2[parent(
                    p as int,
                )].key() >= (#[trigger] s2[i]).key() by {
                    assert(ordered_at(s, i));
                    assert(ordered_at(s, p as int));
                    assert(s2[i] == s[i] && s2[parent(p as int)] == s[parent(p as int)]);
                }
                assert(up_heap_except(s2, p as int));
            }
            self.percolate_up(p);
            proof {
                assert forall|h2: Handle|
                    old(self).valid(h2) && h2 != *h implies final(self).item_of(h2) == old(
                    self,
                ).item_of(h2) by {
                    if old(self).pos_of(h2) == old(self).pos_of(*h) {
                        old(self).lemma_valid_handle_unique(h2, *h);
                    }
                }
            }
        } else {
            proof {
                assert(old(self).mset().remove(cur).insert(cur) =~= old(self).mset());
            }
        }
        Ok(())
    }

    /// Lower the entry named by the handle to `new_item`, percolating it
    /// down; an update that would raise the entry's priority is ignored. A
    /// stale handle is detected and reported, with the heap untouched; a
    /// valid one always succeeds, and no other entry is affected.
    pub fn decrement(&mut self, h: &Handle, new_item: T) -> (r: Result<(), StaleHandle>)
        requires
            old(self).wf(),
        ensures
            final(self).wf(),
            !old(self).valid(*h) ==> r is Err && *final(self) == *old(self),
            old(self).valid(*h) ==> {
                let cur = old(self).item_of(*h);
                let upd = if new_item.key() <= cur.key() {
                    new_item
                } else {
                    cur
                };
                &&& r is Ok
                &&& final(self).valid(*h) && final(self).item_of(*h) == upd
                &&& final(self).len() == old(self).len()
                &&& final(self).mset() == old(self).mset().remove(cur).insert(upd)
                &&& forall|h2: Handle| final(self).valid(h2) == old(self).valid(h2)
                &&& forall|h2: Handle|
                    old(self).valid(h2) && h2 != *h ==> final(self).item_of(h2) == old(
                        self,
                    ).item_of(h2)
            },
            forall|h2: Handle| final(self).retired(h2) == old(self).retired(h2),
    {
        broadcast use group_to_multiset_ensures;

        if h.cell >= self.cells.len() {
            return Err(StaleHandle);
        }
        let pc = self.cells[h.cell];
        if !pc.live || pc.gen != h.gen {
            return Err(StaleHandle);
        }
        let p = pc.pos;
        let cur = self.slots[p].item;
        proof {
            self.lemma_valid_handle_in_heap(*h);
            assert(self.mset().count(cur) > 0);
        }
        if !new_item.above(&cur) {
            let c = self.slots[p].cell;
            self.slots[p] = Slot { item: new_item, cell: c };
            proof {
                let s = old(self).items();
                let s2 = self.items();
                assert(s2 =~= s.update(p as int, new_item));
                lemma_update_to_multiset(s, p as int, new_item);
                assert forall|i: int| 1 <= i < s2.len() && parent(i) != p as int implies
                    #[trigger] ordered_at(s2, i) by {
                    assert(ordered_at(s, i));
                    if i == p as int {
                        assert(s2[i] == new_item && s2[parent(i)] == s[parent(i)]);
                    } else {
                        assert(s2[i] == s[i] && s2[parent(i)] == s[parent(i)]);
                    }
                }
                assert forall|i: int|
                    1 <= i < s2.len() && parent(i) == p as int && p > 0 implies s2[parent(
                    p as int,
                )].key() >= (#[trigger] s2[i]).key() by {
                    assert(ordered_at(s, i));
                    assert(ordered_at(s, p as int));
                    assert(s2[i] == s[i] && s2[parent(p as int)] == s[parent(p as int)]);
                }
                assert(down_heap_except(s2, p as int));
            }
            self.percolate_down(p);
            proof {
                assert forall|h2: Handle|
                    old(self).valid(h2) && h2 != *h implies final(self).item_of(h2) == old(
                    self,
                ).item_of(h2) by {
                    if old(self).pos_of(h2) == old(self).pos_of(*h) {
                        old(self).lemma_valid_handle_unique(h2, *h);
                    }
                }
            }
        } else {
            proof {
                assert(old(self).mset().remove(cur).insert(cur) =~= old(self).mset());
            }
        }
        Ok(())
    }
}

impl<T: Priority> Default for MutHeap<T> {
    /// An empty heap, with no valid handles.
    fn default() -> (h: Self)
        ensures
            h.wf(),
            h.len() == 0,
            h.mset() == Multiset::<T>::empty(),
            forall|x: Handle| !h.valid(x),
    {
        let h = MutHeap { slots: Vec::new(), cells: Vec::new(), free: Vec::new() };
        proof {
            broadcast use group_to_multiset_ensures;

            assert(h.items() =~= Seq::<T>::empty());
            assert(h.mset() =~= Multiset::<T>::empty());
        }
        h
    }
}

} // verus!
