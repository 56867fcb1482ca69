//! The laws of the abstract model that every strategy's contract is stated
//! against: what expiry means for membership, that a refresh replaces rather
//! than duplicates, that cleanup drains a fully expired backlog, and that
//! any two strategies whose models agree answer every query sequence alike.
use vstd::prelude::*;

verus! {

use vstd::multiset::Multiset;
use crate::heap_cleanup::Expiration;
use crate::{live, models_agree, spec_sat_add};

/// One operation of the shared `TtlSet` interface, as abstract data.
pub enum TtlOp {
    /// Record `item` for `ttl` more milliseconds.
    Insert { item: u64, ttl: u64 },
    /// Ask whether `item` is still a member.
    Query { item: u64 },
}

/// The model map after applying `op` at time `at`.
pub open spec fn op_state(m: Map<u64, u64>, at: u64, op: TtlOp) -> Map<u64, u64> {
    match op {
        TtlOp::Insert { item, ttl } => m.insert(item, spec_sat_add(at, ttl)),
        TtlOp::Query { .. } => m,
    }
}

/// The observable answer of `op` at time `at` (an insert answers nothing,
/// rendered as `true`).
pub open spec fn op_answer(m: Map<u64, u64>, at: u64, op: TtlOp) -> bool {
    match op {
        TtlOp::Insert { .. } => true,
        TtlOp::Query { item } => live(m, at, item),
    }
}

/// The operations each carry the time they happen at; times never decrease
/// and start no earlier than `t`.
pub open spec fn ordered_after(ops: Seq<(u64, TtlOp)>, t: u64) -> bool
    decreases ops.len(),
{
    ops.len() == 0 || (t <= ops[0].0 && ordered_after(ops.drop_first(), ops[0].0))
}

/// The answers of a whole operation sequence, run from model `m`.
pub open spec fn run_answers(m: Map<u64, u64>, ops: Seq<(u64, TtlOp)>) -> Seq<bool>
    decreases ops.len(),
{
    if ops.len() == 0 {
        Seq::<bool>::empty()
    } else {
        seq![op_answer(m, ops[0].0, ops[0].1)] + run_answers(
            op_state(m, ops[0].0, ops[0].1),
            ops.drop_first(),
        )
    }
}

/// TTL expiry: after inserting `x` at time `t0` with time-to-live `d`, a
/// membership query at time `t` answers true exactly when `t` still lies
/// before the recorded expiry `t0 + d` (saturating).
pub proof fn lemma_ttl_expiry(m: Map<u64, u64>, x: u64, d: u64, t0: u64, t: u64)
    ensures
        live(m.insert(x, spec_sat_add(t0, d)), t, x) == (t < spec_sat_add(t0, d)),
{
}

/// A refresh overwrites and never duplicates: inserting the same id twice
/// leaves exactly the state of the second insert, and the set of recorded
/// ids grows by at most the one id.
pub proof fn lemma_refresh_overwrites(m: Map<u64, u64>, x: u64, e1: u64, e2: u64)
    ensures
        m.insert(x, e1).insert(x, e2) == m.insert(x, e2),
        m.insert(x, e1).insert(x, e2).dom() == m.dom().insert(x),
{
    assert(m.insert(x, e1).insert(x, e2) =~= m.insert(x, e2));
    assert(m.insert(x, e1).insert(x, e2).dom() =~= m.dom().insert(x));
}

/// Incremental cleanup converges: if cleanup keeps only records that are
/// still in the future, but every pending record had already expired, then
/// nothing remains in the backing structure.
pub proof fn lemma_cleanup_converges(
    records: Multiset<Expiration>,
    remaining: Multiset<Expiration>,
    t: u64,
)
    requires
        remaining.subset_of(records),
        forall|e: Expiration| #[trigger] remaining.contains(e) ==> e.time > t,
        forall|e: Expiration| #[trigger] records.contains(e) ==> e.time <= t,
    ensures
        remaining.len() == 0,
{
    broadcast use vstd::multiset::group_multiset_axioms;

    assert forall|e: Expiration| remaining.count(e) == 0 by {
        if remaining.count(e) > 0 {
            assert(remaining.contains(e));
            assert(records.count(e) > 0);
            assert(records.contains(e));
        }
    }
    assert(remaining =~= Multiset::<Expiration>::empty());
}

/// Two models that agree from `t` on give the same answer to any operation
/// performed at or after `t`.
pub proof fn lemma_agree_same_answer(
    m1: Map<u64, u64>,
    m2: Map<u64, u64>,
    t: u64,
    at: u64,
    op: TtlOp,
)
    requires
        models_agree(m1, m2, t),
        t <= at,
    ensures
        op_answer(m1, at, op) == op_answer(m2, at, op),
{
    match op {
        TtlOp::Query { item } => {
            assert(live(m1, at, item) == live(m2, at, item));
        },
        TtlOp::Insert { .. } => {},
    }
}

/// Agreement of two models is preserved by performing the same operation at
/// the same time on both.
pub proof fn lemma_agree_step(m1: Map<u64, u64>, m2: Map<u64, u64>, t: u64, at: u64, op: TtlOp)
    requires
        models_agree(m1, m2, t),
        t <= at,
    ensures
        models_agree(op_state(m1, at, op), op_state(m2, at, op), at),
{
    let n1 = op_state(m1, at, op);
    let n2 = op_state(m2, at, op);
    assert forall|i: u64, t2: u64| t2 >= at implies live(n1, t2, i) == live(n2, t2, i) by {
        match op {
            TtlOp::Insert { item, ttl } => {
                if i != item {
                    assert(live(m1, t2, i) == live(m2, t2, i));
                }
            },
            TtlOp::Query { .. } => {
                assert(live(m1, t2, i) == live(m2, t2, i));
            },
        }
    }
}

/// Strategy equivalence: for any fixed sequence of timed insert and query
/// operations, two strategies whose models agree from the start (in
/// particular, two freshly created ones, or the same strategy before and
/// after a cleanup) produce identical answers at every step.
pub proof fn lemma_strategy_equivalence(
    m1: Map<u64, u64>,
    m2: Map<u64, u64>,
    t: u64,
    ops: Seq<(u64, TtlOp)>,
)
    requires
        models_agree(m1, m2, t),
        ordered_after(ops, t),
    ensures
        run_answers(m1, ops) == run_answers(m2, ops),
    decreases ops.len(),
{
    if ops.len() == 0 {
        assert(run_answers(m1, ops) =~= run_answers(m2, ops));
    } else {
        let at = ops[0].0;
        let op = ops[0].1;
        lemma_agree_same_answer(m1, m2, t, at, op);
        lemma_agree_step(m1, m2, t, at, op);
        lemma_strategy_equivalence(
            op_state(m1, at, op),
            op_state(m2, at, op),
            at,
            ops.drop_first(),
        );
        assert(run_answers(m1, ops) =~= run_answers(m2, ops));
    }
}

} // verus!
