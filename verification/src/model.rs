//! Model of flash contents, and what executing planned copy operations
//! does to them.
//!
//! Flash is modelled as a map from [`MemoryLocation`] to the value a page
//! holds; the value type is kept generic, so the results here apply to
//! any page granularity. Executing a [`CopyOperation`] replaces the
//! destination page by the source page. The lemmas below establish the
//! facts every strategy proof rests on: a step whose destinations are
//! distinct and disjoint from its sources acts like a parallel
//! assignment, is idempotent, and, when interrupted partway, reaches the
//! same post-state once re-executed in full.
use vstd::prelude::*;

use crate::strategies::Strategy;
use crate::{CopyOperation, MemoryLocation};

verus! {

/// The effect of one copy operation on flash contents: the destination
/// page takes the source page's value, everything else is untouched.
pub open spec fn apply_op<V>(m: Map<MemoryLocation, V>, op: CopyOperation) -> Map<MemoryLocation, V> {
    m.insert(op.to, m[op.from])
}

/// The effect of a sequence of copy operations, applied in order.
pub open spec fn apply_ops<V>(m: Map<MemoryLocation, V>, ops: Seq<CopyOperation>) -> Map<
    MemoryLocation,
    V,
>
    decreases ops.len(),
{
    if ops.len() == 0 {
        m
    } else {
        apply_ops(apply_op(m, ops[0]), ops.skip(1))
    }
}

/// The effect of executing the plans of steps `from .. to` in order.
pub open spec fn run_plan<V, S: Strategy>(
    m: Map<MemoryLocation, V>,
    s: &S,
    from: int,
    to: int,
) -> Map<MemoryLocation, V>
    decreases to - from,
{
    if from >= to {
        m
    } else {
        run_plan(apply_ops(m, s.spec_plan(from)), s, from + 1, to)
    }
}

/// The effect of executing a strategy in full, step 0 up to its last step.
pub open spec fn run<V, S: Strategy>(m: Map<MemoryLocation, V>, s: &S) -> Map<MemoryLocation, V> {
    run_plan(m, s, 0, s.spec_last_step())
}

/// How many operations of `ops` write (and therefore erase) `loc`.
pub open spec fn writes_to(ops: Seq<CopyOperation>, loc: MemoryLocation) -> nat
    decreases ops.len(),
{
    if ops.len() == 0 {
        0
    } else {
        (if ops[0].to == loc {
            1nat
        } else {
            0nat
        }) + writes_to(ops.skip(1), loc)
    }
}

/// How many erases `loc` endures over the steps `from .. to`.
pub open spec fn wear_between<S: Strategy>(s: &S, from: int, to: int, loc: MemoryLocation) -> nat
    decreases to - from,
{
    if from >= to {
        0
    } else {
        writes_to(s.spec_plan(from), loc) + wear_between(s, from + 1, to, loc)
    }
}

/// How many erases `loc` endures over a full execution of the strategy.
pub open spec fn wear<S: Strategy>(s: &S, loc: MemoryLocation) -> nat {
    wear_between(s, 0, s.spec_last_step(), loc)
}

/// A step is a parallel assignment when no destination is also a source
/// and no two destinations coincide. Every strategy's plans are.
pub open spec fn parallel_step(ops: Seq<CopyOperation>) -> bool {
    &&& forall|i: int, j: int|
        0 <= i < ops.len() && 0 <= j < ops.len() ==> (#[trigger] ops[i]).to != (#[trigger] ops[j]).from
    &&& forall|i: int, j: int|
        0 <= i < ops.len() && 0 <= j < ops.len() && i != j ==> (#[trigger] ops[i]).to != (
        #[trigger] ops[j]).to
}

/// Operations apply one at a time: extending a sequence by one operation
/// applies that operation to the sequence's result.
pub proof fn lemma_apply_ops_snoc<V>(
    m: Map<MemoryLocation, V>,
    ops: Seq<CopyOperation>,
    op: CopyOperation,
)
    ensures
        apply_ops(m, ops.push(op)) == apply_op(apply_ops(m, ops), op),
    decreases ops.len(),
{
    if ops.len() == 0 {
        assert(ops.push(op)[0] == op);
        assert(ops.push(op).skip(1) =~= Seq::<CopyOperation>::empty());
        assert(apply_ops(m, ops.push(op)) == apply_ops(apply_op(m, op), ops.push(op).skip(1)));
        assert(apply_ops(apply_op(m, op), ops.push(op).skip(1)) == apply_op(m, op));
        assert(apply_ops(m, ops) == m);
    } else {
        assert(ops.push(op)[0] == ops[0]);
        assert(ops.push(op).skip(1) =~= ops.skip(1).push(op));
        lemma_apply_ops_snoc(apply_op(m, ops[0]), ops.skip(1), op);
        assert(apply_ops(m, ops.push(op)) == apply_ops(
            apply_op(m, ops[0]),
            ops.skip(1).push(op),
        ));
        assert(apply_ops(m, ops) == apply_ops(apply_op(m, ops[0]), ops.skip(1)));
    }
}

/// Locations no operation writes are untouched.
pub proof fn lemma_apply_ops_unchanged<V>(
    m: Map<MemoryLocation, V>,
    ops: Seq<CopyOperation>,
    loc: MemoryLocation,
)
    requires
        forall|i: int| 0 <= i < ops.len() ==> (#[trigger] ops[i]).to != loc,
    ensures
        apply_ops(m, ops)[loc] == m[loc],
    decreases ops.len(),
{
    if ops.len() > 0 {
        assert(forall|i: int| 0 <= i < ops.skip(1).len() ==> ops.skip(1)[i] == ops[i + 1]);
        lemma_apply_ops_unchanged(apply_op(m, ops[0]), ops.skip(1), loc);
    }
}

/// A parallel step acts like a simultaneous assignment: every destination
/// ends up holding the original value of its source.
pub proof fn lemma_apply_ops_parallel<V>(m: Map<MemoryLocation, V>, ops: Seq<CopyOperation>)
    requires
        parallel_step(ops),
    ensures
        forall|i: int|
            0 <= i < ops.len() ==> apply_ops(m, ops)[(#[trigger] ops[i]).to] == m[ops[i].from],
    decreases ops.len(),
{
    if ops.len() > 0 {
        let m1 = apply_op(m, ops[0]);
        let rest = ops.skip(1);
        assert(forall|i: int| 0 <= i < rest.len() ==> rest[i] == ops[i + 1]);
        lemma_apply_ops_parallel(m1, rest);
        assert forall|i: int| 0 <= i < ops.len() implies apply_ops(m, ops)[(#[trigger] ops[i]).to]
            == m[ops[i].from] by {
            if i == 0 {
                assert(forall|j: int| 0 <= j < rest.len() ==> (#[trigger] rest[j]).to != ops[0].to);
                lemma_apply_ops_unchanged(m1, rest, ops[0].to);
            } else {
                assert(apply_ops(m, ops)[ops[i].to] == m1[rest[i - 1].from]);
                assert(ops[i].from != ops[0].to);
            }
        }
    }
}

/// Executing a parallel step twice leaves the same contents as executing
/// it once: each step of a strategy is idempotent, so a step that was
/// executed but whose completion was not yet persisted may be executed
/// again after a reset.
pub proof fn lemma_parallel_step_idempotent<V>(m: Map<MemoryLocation, V>, ops: Seq<CopyOperation>)
    requires
        parallel_step(ops),
    ensures
        apply_ops(apply_ops(m, ops), ops) =~= apply_ops(m, ops),
{
    let m1 = apply_ops(m, ops);
    let m2 = apply_ops(m1, ops);
    lemma_apply_ops_parallel(m, ops);
    lemma_apply_ops_parallel(m1, ops);
    assert forall|loc: MemoryLocation| #[trigger] m2[loc] == m1[loc] by {
        if exists|i: int| 0 <= i < ops.len() && (#[trigger] ops[i]).to == loc {
            let i = choose|i: int| 0 <= i < ops.len() && (#[trigger] ops[i]).to == loc;
            assert(m1[ops[i].from] == m[ops[i].from]) by {
                lemma_apply_ops_unchanged(m, ops, ops[i].from);
            }
        } else {
            lemma_apply_ops_unchanged(m1, ops, loc);
        }
    }
    assert forall|i: int| 0 <= i < ops.len() implies m1.dom().contains(
        (#[trigger] ops[i]).to,
    ) by {
        lemma_apply_ops_dom_to(m, ops, i);
    }
    lemma_apply_ops_reapply_dom(m1, ops);
}

/// Applying operations never removes a location from the domain.
pub proof fn lemma_apply_ops_dom_mono<V>(
    m: Map<MemoryLocation, V>,
    ops: Seq<CopyOperation>,
    loc: MemoryLocation,
)
    requires
        m.dom().contains(loc),
    ensures
        apply_ops(m, ops).dom().contains(loc),
    decreases ops.len(),
{
    if ops.len() > 0 {
        lemma_apply_ops_dom_mono(apply_op(m, ops[0]), ops.skip(1), loc);
    }
}

/// Every written location is in the domain afterwards.
pub proof fn lemma_apply_ops_dom_to<V>(m: Map<MemoryLocation, V>, ops: Seq<CopyOperation>, i: int)
    requires
        0 <= i < ops.len(),
    ensures
        apply_ops(m, ops).dom().contains(ops[i].to),
    decreases ops.len(),
{
    let rest = ops.skip(1);
    assert(forall|j: int| 0 <= j < rest.len() ==> rest[j] == ops[j + 1]);
    if i == 0 {
        lemma_apply_ops_dom_mono(apply_op(m, ops[0]), rest, ops[0].to);
    } else {
        lemma_apply_ops_dom_to(apply_op(m, ops[0]), rest, i - 1);
    }
}

/// A location in the domain afterwards was either there before or is the
/// destination of some operation.
pub proof fn lemma_apply_ops_dom_from<V>(
    m: Map<MemoryLocation, V>,
    ops: Seq<CopyOperation>,
    loc: MemoryLocation,
)
    requires
        apply_ops(m, ops).dom().contains(loc),
        !m.dom().contains(loc),
    ensures
        exists|i: int| 0 <= i < ops.len() && (#[trigger] ops[i]).to == loc,
    decreases ops.len(),
{
    let rest = ops.skip(1);
    assert(forall|j: int| 0 <= j < rest.len() ==> rest[j] == ops[j + 1]);
    if ops[0].to == loc {
        assert(0 <= 0 < ops.len() && ops[0].to == loc);
    } else {
        lemma_apply_ops_dom_from(apply_op(m, ops[0]), rest, loc);
        let i = choose|i: int| 0 <= i < rest.len() && (#[trigger] rest[i]).to == loc;
        assert(0 <= i + 1 < ops.len() && ops[i + 1].to == loc);
    }
}

/// The domains before and after re-executing operations over their own
/// result coincide.
proof fn lemma_apply_ops_reapply_dom<V>(m1: Map<MemoryLocation, V>, ops: Seq<CopyOperation>)
    requires
        forall|i: int| 0 <= i < ops.len() ==> m1.dom().contains((#[trigger] ops[i]).to),
    ensures
        apply_ops(m1, ops).dom() =~= m1.dom(),
{
    assert forall|loc: MemoryLocation| #[trigger]
        apply_ops(m1, ops).dom().contains(loc) <==> m1.dom().contains(loc) by {
        if m1.dom().contains(loc) {
            lemma_apply_ops_dom_mono(m1, ops, loc);
        } else if apply_ops(m1, ops).dom().contains(loc) {
            lemma_apply_ops_dom_from(m1, ops, loc);
        }
    }
}

/// A parallel step interrupted partway and then re-executed in full
/// reaches the same contents as one uninterrupted execution. This is the
/// foundation of power-loss safety: a reset in the middle of a step is
/// recovered by running the same step again.
pub proof fn lemma_parallel_step_restartable<V>(
    m: Map<MemoryLocation, V>,
    ops: Seq<CopyOperation>,
    cut: int,
)
    requires
        parallel_step(ops),
        0 <= cut <= ops.len(),
    ensures
        apply_ops(apply_ops(m, ops.take(cut)), ops) =~= apply_ops(m, ops),
{
    let part = ops.take(cut);
    let mp = apply_ops(m, part);
    assert(forall|i: int| 0 <= i < part.len() ==> part[i] == ops[i]);
    assert(parallel_step(part));
    lemma_apply_ops_parallel(m, ops);
    lemma_apply_ops_parallel(m, part);
    lemma_apply_ops_parallel(mp, ops);
    assert forall|loc: MemoryLocation| #[trigger]
        apply_ops(mp, ops)[loc] == apply_ops(m, ops)[loc] by {
        if exists|i: int| 0 <= i < ops.len() && (#[trigger] ops[i]).to == loc {
            let i = choose|i: int| 0 <= i < ops.len() && (#[trigger] ops[i]).to == loc;
            assert(apply_ops(mp, ops)[loc] == mp[ops[i].from]);
            assert(forall|j: int| 0 <= j < part.len() ==> (#[trigger] part[j]).to != ops[i].from);
            lemma_apply_ops_unchanged(m, part, ops[i].from);
        } else {
            lemma_apply_ops_unchanged(mp, ops, loc);
            lemma_apply_ops_unchanged(m, part, loc);
            lemma_apply_ops_unchanged(m, ops, loc);
        }
    }
    assert forall|loc: MemoryLocation| #[trigger]
        apply_ops(mp, ops).dom().contains(loc) <==> apply_ops(m, ops).dom().contains(loc) by {
        if m.dom().contains(loc) {
            lemma_apply_ops_dom_mono(m, ops, loc);
            lemma_apply_ops_dom_mono(m, part, loc);
            lemma_apply_ops_dom_mono(mp, ops, loc);
        } else {
            if apply_ops(m, ops).dom().contains(loc) {
                lemma_apply_ops_dom_from(m, ops, loc);
                let i = choose|i: int| 0 <= i < ops.len() && (#[trigger] ops[i]).to == loc;
                lemma_apply_ops_dom_to(mp, ops, i);
            }
            if apply_ops(mp, ops).dom().contains(loc) {
                if mp.dom().contains(loc) {
                    lemma_apply_ops_dom_from(m, part, loc);
                    let j = choose|j: int| 0 <= j < part.len() && (#[trigger] part[j]).to == loc;
                    assert(ops[j].to == loc);
                    lemma_apply_ops_dom_to(m, ops, j);
                } else {
                    lemma_apply_ops_dom_from(mp, ops, loc);
                    let i = choose|i: int| 0 <= i < ops.len() && (#[trigger] ops[i]).to == loc;
                    lemma_apply_ops_dom_to(m, ops, i);
                }
            }
        }
    }
}

/// Running steps `a .. c` is running `a .. b` and then `b .. c`.
pub proof fn lemma_run_plan_split<V, S: Strategy>(
    m: Map<MemoryLocation, V>,
    s: &S,
    a: int,
    b: int,
    c: int,
)
    requires
        a <= b <= c,
    ensures
        run_plan(m, s, a, c) == run_plan(run_plan(m, s, a, b), s, b, c),
    decreases b - a,
{
    if a < b {
        lemma_run_plan_split(apply_ops(m, s.spec_plan(a)), s, a + 1, b, c);
    }
}

/// A location that no step in `from .. to` writes endures no erase there.
pub proof fn lemma_wear_between_none<S: Strategy>(s: &S, from: int, to: int, loc: MemoryLocation)
    requires
        forall|k: int| from <= k < to ==> writes_to(#[trigger] s.spec_plan(k), loc) == 0,
    ensures
        wear_between(s, from, to, loc) == 0,
    decreases to - from,
{
    if from < to {
        lemma_wear_between_none(s, from + 1, to, loc);
    }
}

/// A location that exactly one step in `from .. to` writes, `n` times,
/// endures exactly `n` erases over those steps.
pub proof fn lemma_wear_between_single<S: Strategy>(
    s: &S,
    from: int,
    to: int,
    k0: int,
    loc: MemoryLocation,
)
    requires
        from <= k0 < to,
        forall|k: int|
            from <= k < to && k != k0 ==> writes_to(#[trigger] s.spec_plan(k), loc) == 0,
    ensures
        wear_between(s, from, to, loc) == writes_to(s.spec_plan(k0), loc),
    decreases to - from,
{
    if from == k0 {
        lemma_wear_between_none(s, from + 1, to, loc);
    } else {
        lemma_wear_between_single(s, from + 1, to, k0, loc);
    }
}

/// Summing wear over `a .. c` splits at any `b` between them.
pub proof fn lemma_wear_between_split<S: Strategy>(
    s: &S,
    a: int,
    b: int,
    c: int,
    loc: MemoryLocation,
)
    requires
        a <= b <= c,
    ensures
        wear_between(s, a, c, loc) == wear_between(s, a, b, loc) + wear_between(s, b, c, loc),
    decreases b - a,
{
    if a < b {
        lemma_wear_between_split(s, a + 1, b, c, loc);
    }
}

/// How many operations a sequence of steps plans for one location: if no
/// operation of a step writes `loc`, that step contributes nothing.
pub proof fn lemma_writes_to_none(ops: Seq<CopyOperation>, loc: MemoryLocation)
    requires
        forall|i: int| 0 <= i < ops.len() ==> (#[trigger] ops[i]).to != loc,
    ensures
        writes_to(ops, loc) == 0,
    decreases ops.len(),
{
    if ops.len() > 0 {
        assert(forall|i: int| 0 <= i < ops.skip(1).len() ==> ops.skip(1)[i] == ops[i + 1]);
        lemma_writes_to_none(ops.skip(1), loc);
    }
}

/// A step with exactly one operation writing `loc` erases it once.
pub proof fn lemma_writes_to_once(ops: Seq<CopyOperation>, loc: MemoryLocation, i0: int)
    requires
        0 <= i0 < ops.len(),
        ops[i0].to == loc,
        forall|i: int| 0 <= i < ops.len() && i != i0 ==> (#[trigger] ops[i]).to != loc,
    ensures
        writes_to(ops, loc) == 1,
    decreases ops.len(),
{
    let rest = ops.skip(1);
    assert(forall|i: int| 0 <= i < rest.len() ==> rest[i] == ops[i + 1]);
    if i0 == 0 {
        lemma_writes_to_none(rest, loc);
    } else {
        lemma_writes_to_once(rest, loc, i0 - 1);
    }
}

} // verus!
