use vstd::prelude::*;
use crate::bits::{truncate, truncate_to};
use crate::expr::{eval, eval_expr, Expr, lemma_eval_frame, lemma_reads_within, reads};
use crate::model::Model;
use crate::validate::assign_drivers;

verus! {

/// Settling did not reach a fixpoint within its bound: a combinational loop.
/// Names the first signal that was still changing.
#[derive(Clone, Copy, Debug, PartialEq, Eq, Structural)]
pub struct CombinationalCycleError {
    pub signal: usize,
}

/// What an assignment of `e` to `target` gives over `v`: the expression
/// evaluated at full width, cut to the target's width.
pub open spec fn assigned_value(m: &Model, e: Expr, target: usize, v: Seq<u64>) -> u64 {
    truncate(eval(e, v, 64) as int, m.width_of(target as int))
}

/// The first `n` assignments applied to `v`, each reading `v` itself, so that
/// no assignment sees another's result within one pass.
pub open spec fn step_prefix(m: &Model, v: Seq<u64>, n: nat) -> Seq<u64>
    decreases n,
{
    if n == 0 {
        v
    } else {
        let a = m.assigns@[n - 1];
        step_prefix(m, v, (n - 1) as nat).update(a.target as int, assigned_value(m, a.expr, a.target, v))
    }
}

/// One pass of every combinational assignment over the values `v`.
pub open spec fn step(m: &Model, v: Seq<u64>) -> Seq<u64> {
    step_prefix(m, v, m.assigns@.len())
}

/// `v` is settled: another pass changes nothing.
pub open spec fn is_fixpoint(m: &Model, v: Seq<u64>) -> bool {
    step(m, v) == v
}

/// `k` passes from `v`.
pub open spec fn iterate(m: &Model, v: Seq<u64>, k: nat) -> Seq<u64>
    decreases k,
{
    if k == 0 {
        v
    } else {
        iterate(m, step(m, v), (k - 1) as nat)
    }
}

/// How many passes settling may take beyond the first: one more than there
/// are assignments, since an acyclic chain of assignments is no longer than
/// the table.
pub open spec fn settle_bound(m: &Model) -> nat {
    m.assigns@.len() + 1
}

/// Passes from `v` until one changes nothing (`Ok`), or `fuel` more passes
/// have been made (`Err`); either way with the last values.
pub open spec fn settle_from(m: &Model, v: Seq<u64>, fuel: nat) -> Result<Seq<u64>, Seq<u64>>
    decreases fuel,
{
    if step(m, v) == v {
        Ok(v)
    } else if fuel == 0 {
        Err(v)
    } else {
        settle_from(m, step(m, v), (fuel - 1) as nat)
    }
}

/// Signal `s` is the target of some combinational assignment.
pub open spec fn comb_driven(m: &Model, s: int) -> bool {
    assign_drivers(m.assigns@, s) > 0
}

/// `rank` orders the signals so that every assignment reads only signals of
/// lower rank than its target, with no rank above `depth`.
pub open spec fn ranked(m: &Model, rank: Seq<nat>, depth: nat) -> bool {
    &&& rank.len() == m.signals@.len()
    &&& forall|s: int| 0 <= s < rank.len() ==> #[trigger] rank[s] <= depth
    &&& forall|k: int, s: int|
        0 <= k < m.assigns@.len() && #[trigger] reads(m.assigns@[k].expr, s) ==> rank[s] < rank[
            m.assigns@[k].target as int
        ]
}

pub proof fn lemma_step_prefix_len(m: &Model, v: Seq<u64>, n: nat)
    requires
        m.wf(),
        v.len() == m.signals@.len(),
        n <= m.assigns@.len(),
    ensures
        step_prefix(m, v, n).len() == v.len(),
    decreases n,
{
    if n > 0 {
        lemma_step_prefix_len(m, v, (n - 1) as nat);
        assert(m.assign_ok(m.assigns@[n - 1]));
    }
}

pub proof fn lemma_step_len(m: &Model, v: Seq<u64>)
    requires
        m.wf(),
        v.len() == m.signals@.len(),
    ensures
        step(m, v).len() == v.len(),
{
    lemma_step_prefix_len(m, v, m.assigns@.len());
}

/// After one pass, a signal is determined by the assignments that target it
/// (or, if there are none, by its own value).
proof fn lemma_step_prefix_frame(m: &Model, v1: Seq<u64>, v2: Seq<u64>, n: nat, s: int)
    requires
        m.wf(),
        v1.len() == m.signals@.len(),
        v2.len() == m.signals@.len(),
        n <= m.assigns@.len(),
        0 <= s < m.signals@.len(),
        assign_drivers(m.assigns@.take(n as int), s) > 0 || v1[s] == v2[s],
        forall|k: int, t: int|
            0 <= k < n && m.assigns@[k].target == s && #[trigger] reads(m.assigns@[k].expr, t) ==> v1[t] == v2[t],
    ensures
        step_prefix(m, v1, n)[s] == step_prefix(m, v2, n)[s],
    decreases n,
{
    if n > 0 {
        let a = m.assigns@[n - 1];
        assert(m.assign_ok(a));
        lemma_step_prefix_len(m, v1, (n - 1) as nat);
        lemma_step_prefix_len(m, v2, (n - 1) as nat);
        assert(m.assigns@.take(n as int).drop_last() =~= m.assigns@.take(n - 1));
        if a.target == s {
            assert forall|t: int| reads(a.expr, t) implies v1[t] == v2[t] by {
                assert(reads(m.assigns@[n - 1].expr, t));
            }
            lemma_eval_frame(a.expr, v1, v2, 64);
        } else {
            lemma_step_prefix_frame(m, v1, v2, (n - 1) as nat, s);
        }
    }
}

proof fn lemma_step_untargeted(m: &Model, v: Seq<u64>, n: nat, s: int)
    requires
        m.wf(),
        v.len() == m.signals@.len(),
        n <= m.assigns@.len(),
        0 <= s < m.signals@.len(),
        assign_drivers(m.assigns@.take(n as int), s) == 0,
    ensures
        step_prefix(m, v, n)[s] == v[s],
    decreases n,
{
    if n > 0 {
        assert(m.assigns@.take(n as int).drop_last() =~= m.assigns@.take(n - 1));
        lemma_step_untargeted(m, v, (n - 1) as nat, s);
        lemma_step_prefix_len(m, v, (n - 1) as nat);
    }
}

proof fn lemma_step_frame(m: &Model, v1: Seq<u64>, v2: Seq<u64>, s: int)
    requires
        m.wf(),
        v1.len() == m.signals@.len(),
        v2.len() == m.signals@.len(),
        0 <= s < m.signals@.len(),
        comb_driven(m, s) || v1[s] == v2[s],
        forall|k: int, t: int|
            0 <= k < m.assigns@.len() && m.assigns@[k].target == s && #[trigger] reads(m.assigns@[k].expr, t) ==> v1[t] == v2[t],
    ensures
        step(m, v1)[s] == step(m, v2)[s],
{
    assert(m.assigns@.take(m.assigns@.len() as int) =~= m.assigns@);
    lemma_step_prefix_frame(m, v1, v2, m.assigns@.len(), s);
}

/// A signal that no assignment targets keeps its value through a pass.
pub proof fn lemma_step_keeps_undriven(m: &Model, v: Seq<u64>, s: int)
    requires
        m.wf(),
        v.len() == m.signals@.len(),
        0 <= s < m.signals@.len(),
        !comb_driven(m, s),
    ensures
        step(m, v)[s] == v[s],
{
    assert(m.assigns@.take(m.assigns@.len() as int) =~= m.assigns@);
    lemma_step_untargeted(m, v, m.assigns@.len(), s);
}

proof fn lemma_iterate_len(m: &Model, v: Seq<u64>, k: nat)
    requires
        m.wf(),
        v.len() == m.signals@.len(),
    ensures
        iterate(m, v, k).len() == v.len(),
    decreases k,
{
    if k > 0 {
        lemma_step_len(m, v);
        lemma_iterate_len(m, step(m, v), (k - 1) as nat);
    }
}

proof fn lemma_iterate_succ(m: &Model, v: Seq<u64>, k: nat)
    ensures
        iterate(m, v, k + 1) == step(m, iterate(m, v, k)),
    decreases k,
{
    if k > 0 {
        lemma_iterate_succ(m, step(m, v), (k - 1) as nat);
        assert(iterate(m, v, k + 1) == iterate(m, step(m, v), k));
        assert(iterate(m, v, k) == iterate(m, step(m, v), (k - 1) as nat));
    } else {
        assert(iterate(m, v, 1) == iterate(m, step(m, v), 0));
    }
}

/// After `k` passes, every signal of rank below `k` has stopped changing.
proof fn lemma_rank_stable(m: &Model, v: Seq<u64>, rank: Seq<nat>, depth: nat, k: nat)
    requires
        m.wf(),
        v.len() == m.signals@.len(),
        ranked(m, rank, depth),
    ensures
        forall|s: int|
            0 <= s < m.signals@.len() && rank[s] < k ==> #[trigger] iterate(m, v, k)[s] == iterate(m, v, k + 1)[s],
    decreases k,
{
    if k > 0 {
        lemma_rank_stable(m, v, rank, depth, (k - 1) as nat);
        let a = iterate(m, v, (k - 1) as nat);
        let b = iterate(m, v, k);
        lemma_iterate_len(m, v, (k - 1) as nat);
        lemma_iterate_len(m, v, k);
        lemma_iterate_succ(m, v, (k - 1) as nat);
        lemma_iterate_succ(m, v, k);
        assert forall|s: int| 0 <= s < m.signals@.len() && rank[s] < k implies #[trigger] iterate(m, v, k)[s] == iterate(m, v, k + 1)[s] by {
            if comb_driven(m, s) {
                assert forall|j: int, t: int|
                    0 <= j < m.assigns@.len() && m.assigns@[j].target == s && #[trigger] reads(m.assigns@[j].expr, t) implies a[t] == b[t] by {
                    assert(m.assign_ok(m.assigns@[j]));
                    lemma_reads_within(m.assigns@[j].expr, m.signals@.len(), t);
                    assert(rank[t] < rank[s]);
                }
                lemma_step_frame(m, a, b, s);
            } else {
                lemma_step_keeps_undriven(m, b, s);
            }
        }
    }
}

proof fn lemma_settle_reaches(m: &Model, v: Seq<u64>, j: nat, fuel: nat)
    requires
        m.wf(),
        v.len() == m.signals@.len(),
        j <= fuel,
        is_fixpoint(m, iterate(m, v, j)),
    ensures
        settle_from(m, v, fuel) is Ok,
        exists|i: nat| i <= j && settle_from(m, v, fuel) == Ok::<Seq<u64>, Seq<u64>>(iterate(m, v, i)),
    decreases j,
{
    if step(m, v) == v {
        assert(settle_from(m, v, fuel) == Ok::<Seq<u64>, Seq<u64>>(iterate(m, v, 0)));
    } else {
        assert(j > 0);
        lemma_step_len(m, v);
        lemma_settle_reaches(m, step(m, v), (j - 1) as nat, (fuel - 1) as nat);
        let i = choose|i: nat|
            i <= j - 1 && settle_from(m, step(m, v), (fuel - 1) as nat) == Ok::<Seq<u64>, Seq<u64>>(
                iterate(m, step(m, v), i),
            );
        assert(iterate(m, v, i + 1) == iterate(m, step(m, v), i));
    }
}

/// Settling leaves alone every signal that no assignment drives.
pub proof fn lemma_settle_keeps_undriven(m: &Model, v: Seq<u64>, fuel: nat, s: int)
    requires
        m.wf(),
        v.len() == m.signals@.len(),
        0 <= s < m.signals@.len(),
        !comb_driven(m, s),
    ensures
        settle_from(m, v, fuel) matches Ok(x) ==> x[s] == v[s] && x.len() == v.len(),
    decreases fuel,
{
    if step(m, v) != v && fuel > 0 {
        lemma_step_len(m, v);
        lemma_step_keeps_undriven(m, v, s);
        lemma_settle_keeps_undriven(m, step(m, v), (fuel - 1) as nat, s);
    }
}

/// An acyclic combinational network (one whose signals can be ranked, each
/// assignment reading only lower ranks) settles: after at most `depth + 1`
/// passes the values are a fixpoint, and settling reports success whenever
/// `depth` is within the table's length, which some ranking of every acyclic
/// network meets.
pub proof fn lemma_acyclic_settles(m: &Model, v: Seq<u64>, rank: Seq<nat>, depth: nat)
    requires
        m.wf(),
        v.len() == m.signals@.len(),
        ranked(m, rank, depth),
    ensures
        is_fixpoint(m, iterate(m, v, depth + 1)),
        depth < settle_bound(m) ==> settle_from(m, v, settle_bound(m)) is Ok,
        depth < settle_bound(m) ==> exists|i: nat|
            i <= depth + 1 && settle_from(m, v, settle_bound(m)) == Ok::<Seq<u64>, Seq<u64>>(iterate(m, v, i)),
{
    lemma_rank_stable(m, v, rank, depth, depth + 1);
    lemma_iterate_len(m, v, depth + 1);
    lemma_iterate_len(m, v, depth + 2);
    lemma_iterate_succ(m, v, depth + 1);
    assert(iterate(m, v, depth + 1) =~= iterate(m, v, depth + 2));
    if depth < settle_bound(m) {
        lemma_settle_reaches(m, v, depth + 1, settle_bound(m));
    }
}

/// The settled values of an acyclic network do not depend on how they were
/// reached: two fixpoints that agree on the signals no assignment drives are
/// equal.
pub proof fn lemma_fixpoint_unique(m: &Model, rank: Seq<nat>, depth: nat, v1: Seq<u64>, v2: Seq<u64>)
    requires
        m.wf(),
        ranked(m, rank, depth),
        v1.len() == m.signals@.len(),
        v2.len() == m.signals@.len(),
        is_fixpoint(m, v1),
        is_fixpoint(m, v2),
        forall|s: int| 0 <= s < m.signals@.len() && !comb_driven(m, s) ==> v1[s] == v2[s],
    ensures
        v1 == v2,
{
    lemma_fixpoint_agree_below(m, rank, depth, v1, v2, depth + 1);
    assert(v1 =~= v2);
}

proof fn lemma_fixpoint_agree_below(m: &Model, rank: Seq<nat>, depth: nat, v1: Seq<u64>, v2: Seq<u64>, r: nat)
    requires
        m.wf(),
        ranked(m, rank, depth),
        v1.len() == m.signals@.len(),
        v2.len() == m.signals@.len(),
        is_fixpoint(m, v1),
        is_fixpoint(m, v2),
        forall|s: int| 0 <= s < m.signals@.len() && !comb_driven(m, s) ==> v1[s] == v2[s],
    ensures
        forall|s: int| 0 <= s < m.signals@.len() && rank[s] < r ==> #[trigger] v1[s] == v2[s],
    decreases r,
{
    if r > 0 {
        lemma_fixpoint_agree_below(m, rank, depth, v1, v2, (r - 1) as nat);
        assert forall|s: int| 0 <= s < m.signals@.len() && rank[s] < r implies #[trigger] v1[s] == v2[s] by {
            if comb_driven(m, s) {
                assert forall|j: int, t: int|
                    0 <= j < m.assigns@.len() && m.assigns@[j].target == s && #[trigger] reads(m.assigns@[j].expr, t) implies v1[t] == v2[t] by {
                    assert(m.assign_ok(m.assigns@[j]));
                    lemma_reads_within(m.assigns@[j].expr, m.signals@.len(), t);
                    assert(rank[t] < rank[s]);
                }
                lemma_step_frame(m, v1, v2, s);
            }
        }
    }
}

/// A network with no fixpoint at all (such as a signal driven by its own
/// inverse) never settles: settling ends, and reports the cycle.
pub proof fn lemma_oscillation_detected(m: &Model, v: Seq<u64>, fuel: nat)
    requires
        m.wf(),
        v.len() == m.signals@.len(),
        forall|u: Seq<u64>| u.len() == m.signals@.len() ==> #[trigger] step(m, u) != u,
    ensures
        settle_from(m, v, fuel) is Err,
    decreases fuel,
{
    assert(step(m, v) != v);
    if fuel > 0 {
        lemma_step_len(m, v);
        lemma_oscillation_detected(m, step(m, v), (fuel - 1) as nat);
    }
}

proof fn lemma_assign_drivers_positive(a: Seq<crate::model::Assign>, k: int, s: int)
    requires
        0 <= k < a.len(),
        a[k].target == s,
    ensures
        assign_drivers(a, s) >= 1,
    decreases a.len(),
{
    if k < a.len() - 1 {
        lemma_assign_drivers_positive(a.drop_last(), k, s);
    }
}

proof fn lemma_step_prefix_sole(m: &Model, v: Seq<u64>, n: nat, k: int)
    requires
        m.wf(),
        v.len() == m.signals@.len(),
        0 <= k < n <= m.assigns@.len(),
        assign_drivers(m.assigns@.take(n as int), m.assigns@[k].target as int) == 1,
    ensures
        step_prefix(m, v, n)[m.assigns@[k].target as int] == assigned_value(
            m,
            m.assigns@[k].expr,
            m.assigns@[k].target,
            v,
        ),
    decreases n,
{
    let t = m.assigns@[k].target as int;
    assert(m.assign_ok(m.assigns@[k]));
    assert(m.assign_ok(m.assigns@[n - 1]));
    let prev = m.assigns@.take(n - 1);
    assert(m.assigns@.take(n as int).drop_last() =~= prev);
    lemma_step_prefix_len(m, v, (n - 1) as nat);
    if k < n - 1 {
        assert(prev[k] == m.assigns@[k]);
        lemma_assign_drivers_positive(prev, k, t);
        lemma_step_prefix_sole(m, v, (n - 1) as nat, k);
    }
}

/// At a fixpoint, a signal driven by exactly one assignment holds that
/// assignment's value.
pub proof fn lemma_fixpoint_sole_driver(m: &Model, v: Seq<u64>, k: int)
    requires
        m.wf(),
        v.len() == m.signals@.len(),
        is_fixpoint(m, v),
        0 <= k < m.assigns@.len(),
        assign_drivers(m.assigns@, m.assigns@[k].target as int) == 1,
    ensures
        v[m.assigns@[k].target as int] == assigned_value(m, m.assigns@[k].expr, m.assigns@[k].target, v),
{
    assert(m.assigns@.take(m.assigns@.len() as int) =~= m.assigns@);
    lemma_step_prefix_sole(m, v, m.assigns@.len(), k);
}

/// At a fixpoint, a signal whose only driver passes another signal through
/// holds that signal's value (cut to its own width): whichever of linking or
/// joining made the connection, reading the consumer gives the producer's
/// value.
pub proof fn lemma_pass_through(m: &Model, v: Seq<u64>, k: int, owner: usize, dst: usize, src: usize)
    requires
        m.wf(),
        v.len() == m.signals@.len(),
        is_fixpoint(m, v),
        0 <= k < m.assigns@.len(),
        m.assigns@[k] == crate::model::pass(owner, dst, src),
        assign_drivers(m.assigns@, dst as int) == 1,
    ensures
        v[dst as int] == truncate(v[src as int] as int, m.width_of(dst as int)),
{
    lemma_fixpoint_sole_driver(m, v, k);
    crate::bits::lemma_pow2_64();
    assert(eval(Expr::Sig(src), v, 64) == v[src as int]);
}

/// One pass of every combinational assignment over `v`.
pub fn step_values(m: &Model, v: &Vec<u64>) -> (r: Vec<u64>)
    requires
        m.wf(),
        v@.len() == m.signals@.len(),
    ensures
        r@ == step(m, v@),
{
    let mut r = v.clone();
    let mut k: usize = 0;
    while k < m.assigns.len()
        invariant
            m.wf(),
            v@.len() == m.signals@.len(),
            k <= m.assigns@.len(),
            r@ == step_prefix(m, v@, k as nat),
        decreases m.assigns@.len() - k,
    {
        let a = &m.assigns[k];
        proof {
            assert(m.assign_ok(m.assigns@[k as int]));
            assert(m.signal_ok(m.signals@[a.target as int]));
            lemma_step_prefix_len(m, v@, k as nat);
        }
        let x = truncate_to(eval_expr(&a.expr, v, 64) as u128, m.signals[a.target].width);
        r.set(a.target, x);
        k = k + 1;
    }
    r
}

fn settle_loop(m: &Model, start: Vec<u64>) -> (r: (Result<(), CombinationalCycleError>, Vec<u64>))
    requires
        m.wf(),
        start@.len() == m.signals@.len(),
    ensures
        r.1@.len() == m.signals@.len(),
        match settle_from(m, start@, settle_bound(m)) {
            Ok(v) => r.0 is Ok && r.1@ == v,
            Err(v) => r.0 is Err && r.1@ == v,
        },
        r.0 matches Err(e) ==> {
            &&& e.signal < m.signals@.len()
            &&& step(m, r.1@)[e.signal as int] != r.1@[e.signal as int]
            &&& forall|t: int| 0 <= t < e.signal ==> step(m, r.1@)[t] == #[trigger] r.1@[t]
        },
{
    let mut vals = start;
    let mut fuel: u128 = m.assigns.len() as u128 + 1;
    loop
        invariant
            m.wf(),
            vals@.len() == m.signals@.len(),
            settle_from(m, start@, settle_bound(m)) == settle_from(m, vals@, fuel as nat),
        decreases fuel,
    {
        let next = step_values(m, &vals);
        proof {
            lemma_step_len(m, vals@);
        }
        let mut s: usize = 0;
        while s < vals.len() && next[s] == vals[s]
            invariant
                next@.len() == vals@.len(),
                s <= vals@.len(),
                next@ == step(m, vals@),
                forall|t: int| 0 <= t < s ==> next@[t] == #[trigger] vals@[t],
            decreases vals@.len() - s,
        {
            s = s + 1;
        }
        if s == vals.len() {
            proof {
                assert(next@ =~= vals@);
            }
            return (Ok(()), vals);
        }
        if fuel == 0 {
            return (Err(CombinationalCycleError { signal: s }), vals);
        }
        fuel = fuel - 1;
        vals = next;
    }
}

/// Settles `vals`: makes passes until one changes nothing. On a combinational
/// loop, stops after the bound and names the first signal still changing;
/// `vals` then holds the last values reached.
pub fn settle(m: &Model, vals: &mut Vec<u64>) -> (r: Result<(), CombinationalCycleError>)
    requires
        m.wf(),
        old(vals)@.len() == m.signals@.len(),
    ensures
        final(vals)@.len() == m.signals@.len(),
        match settle_from(m, old(vals)@, settle_bound(m)) {
            Ok(v) => r is Ok && final(vals)@ == v,
            Err(v) => r is Err && final(vals)@ == v,
        },
        r matches Err(e) ==> {
            &&& e.signal < m.signals@.len()
            &&& step(m, final(vals)@)[e.signal as int] != final(vals)@[e.signal as int]
            &&& forall|t: int| 0 <= t < e.signal ==> step(m, final(vals)@)[t] == #[trigger] final(vals)@[t]
        },
{
    let start = vals.clone();
    let (r, v) = settle_loop(m, start);
    *vals = v;
    r
}

} // verus!
