use vstd::prelude::*;
use crate::expr::{lemma_reads_within, reads, reads_within, Expr};
use crate::model::Model;

verus! {

/// `rank` places every signal an assignment reads strictly below the
/// assignment's target.
pub open spec fn ordered(m: &Model, rank: Seq<nat>) -> bool {
    &&& rank.len() == m.signals@.len()
    &&& forall|k: int, s: int|
        0 <= k < m.assigns@.len() && #[trigger] reads(m.assigns@[k].expr, s) ==> rank[s] < rank[
            m.assigns@[k].target as int
        ]
}

/// The combinational assignments have no loop: some ranking orders them.
pub open spec fn acyclic(m: &Model) -> bool {
    exists|rank: Seq<nat>| ordered(m, rank)
}

/// Signal `a` feeds signal `b` through one assignment.
pub open spec fn feeds(m: &Model, a: int, b: int) -> bool {
    exists|k: int| 0 <= k < m.assigns@.len() && m.assigns@[k].target == b && #[trigger] reads(m.assigns@[k].expr, a)
}

/// `p` is a path of signals, each feeding the next, that ends where it began.
pub open spec fn is_loop(m: &Model, p: Seq<int>) -> bool {
    &&& p.len() >= 2
    &&& p[0] == p.last()
    &&& forall|i: int| 0 <= i < p.len() - 1 ==> #[trigger] feeds(m, p[i], p[i + 1])
}

/// Every signal `e` reads is marked in `ready`.
pub open spec fn reads_ready(e: Expr, ready: Seq<bool>) -> bool
    decreases e,
{
    match e {
        Expr::Const(_) => true,
        Expr::Sig(i) => ready[i as int],
        Expr::Not(a) => reads_ready(*a, ready),
        Expr::And(a, b) => reads_ready(*a, ready) && reads_ready(*b, ready),
        Expr::Or(a, b) => reads_ready(*a, ready) && reads_ready(*b, ready),
        Expr::Xor(a, b) => reads_ready(*a, ready) && reads_ready(*b, ready),
        Expr::Add(a, b) => reads_ready(*a, ready) && reads_ready(*b, ready),
        Expr::Sub(a, b) => reads_ready(*a, ready) && reads_ready(*b, ready),
        Expr::Eq(a, b) => reads_ready(*a, ready) && reads_ready(*b, ready),
        Expr::Mux(c, a, b) => reads_ready(*c, ready) && reads_ready(*a, ready) && reads_ready(*b, ready),
        Expr::Shl(a, b) => reads_ready(*a, ready) && reads_ready(*b, ready),
        Expr::Shr(a, b) => reads_ready(*a, ready) && reads_ready(*b, ready),
    }
}

proof fn lemma_ready_reads(e: Expr, ready: Seq<bool>, s: int)
    requires
        reads_ready(e, ready),
        reads(e, s),
    ensures
        ready[s],
    decreases e,
{
    match e {
        Expr::Const(_) => {},
        Expr::Sig(_) => {},
        Expr::Not(a) => lemma_ready_reads(*a, ready, s),
        Expr::And(a, b) => if reads(*a, s) { lemma_ready_reads(*a, ready, s) } else { lemma_ready_reads(*b, ready, s) },
        Expr::Or(a, b) => if reads(*a, s) { lemma_ready_reads(*a, ready, s) } else { lemma_ready_reads(*b, ready, s) },
        Expr::Xor(a, b) => if reads(*a, s) { lemma_ready_reads(*a, ready, s) } else { lemma_ready_reads(*b, ready, s) },
        Expr::Add(a, b) => if reads(*a, s) { lemma_ready_reads(*a, ready, s) } else { lemma_ready_reads(*b, ready, s) },
        Expr::Sub(a, b) => if reads(*a, s) { lemma_ready_reads(*a, ready, s) } else { lemma_ready_reads(*b, ready, s) },
        Expr::Eq(a, b) => if reads(*a, s) { lemma_ready_reads(*a, ready, s) } else { lemma_ready_reads(*b, ready, s) },
        Expr::Mux(c, a, b) => if reads(*c, s) {
            lemma_ready_reads(*c, ready, s)
        } else if reads(*a, s) {
            lemma_ready_reads(*a, ready, s)
        } else {
            lemma_ready_reads(*b, ready, s)
        },
        Expr::Shl(a, b) => if reads(*a, s) { lemma_ready_reads(*a, ready, s) } else { lemma_ready_reads(*b, ready, s) },
        Expr::Shr(a, b) => if reads(*a, s) { lemma_ready_reads(*a, ready, s) } else { lemma_ready_reads(*b, ready, s) },
    }
}

/// A signal that `e` reads and that is not marked in `ready`.
proof fn unready_read(e: Expr, ready: Seq<bool>) -> (s: int)
    requires
        !reads_ready(e, ready),
    ensures
        reads(e, s),
        !ready[s],
    decreases e,
{
    match e {
        Expr::Const(_) => 0,
        Expr::Sig(i) => i as int,
        Expr::Not(a) => unready_read(*a, ready),
        Expr::And(a, b) => if !reads_ready(*a, ready) { unready_read(*a, ready) } else { unready_read(*b, ready) },
        Expr::Or(a, b) => if !reads_ready(*a, ready) { unready_read(*a, ready) } else { unready_read(*b, ready) },
        Expr::Xor(a, b) => if !reads_ready(*a, ready) { unready_read(*a, ready) } else { unready_read(*b, ready) },
        Expr::Add(a, b) => if !reads_ready(*a, ready) { unready_read(*a, ready) } else { unready_read(*b, ready) },
        Expr::Sub(a, b) => if !reads_ready(*a, ready) { unready_read(*a, ready) } else { unready_read(*b, ready) },
        Expr::Eq(a, b) => if !reads_ready(*a, ready) { unready_read(*a, ready) } else { unready_read(*b, ready) },
        Expr::Mux(c, a, b) => if !reads_ready(*c, ready) {
            unready_read(*c, ready)
        } else if !reads_ready(*a, ready) {
            unready_read(*a, ready)
        } else {
            unready_read(*b, ready)
        },
        Expr::Shl(a, b) => if !reads_ready(*a, ready) { unready_read(*a, ready) } else { unready_read(*b, ready) },
        Expr::Shr(a, b) => if !reads_ready(*a, ready) { unready_read(*a, ready) } else { unready_read(*b, ready) },
    }
}

fn expr_ready(e: &Expr, ready: &Vec<bool>) -> (r: bool)
    requires
        reads_within(*e, ready@.len() as nat),
    ensures
        r == reads_ready(*e, ready@),
    decreases e,
{
    match e {
        Expr::Const(_) => true,
        Expr::Sig(i) => ready[*i],
        Expr::Not(a) => expr_ready(a, ready),
        Expr::And(a, b) => expr_ready(a, ready) && expr_ready(b, ready),
        Expr::Or(a, b) => expr_ready(a, ready) && expr_ready(b, ready),
        Expr::Xor(a, b) => expr_ready(a, ready) && expr_ready(b, ready),
        Expr::Add(a, b) => expr_ready(a, ready) && expr_ready(b, ready),
        Expr::Sub(a, b) => expr_ready(a, ready) && expr_ready(b, ready),
        Expr::Eq(a, b) => expr_ready(a, ready) && expr_ready(b, ready),
        Expr::Mux(c, a, b) => expr_ready(c, ready) && expr_ready(a, ready) && expr_ready(b, ready),
        Expr::Shl(a, b) => expr_ready(a, ready) && expr_ready(b, ready),
        Expr::Shr(a, b) => expr_ready(a, ready) && expr_ready(b, ready),
    }
}

/// Every assignment to `t` reads only signals marked in `ready`.
pub open spec fn inputs_ready(m: &Model, t: int, ready: Seq<bool>) -> bool {
    forall|k: int| 0 <= k < m.assigns@.len() && m.assigns@[k].target == t ==> #[trigger] reads_ready(m.assigns@[k].expr, ready)
}

fn target_ready(m: &Model, t: usize, ready: &Vec<bool>) -> (r: bool)
    requires
        m.wf(),
        ready@.len() == m.signals@.len(),
    ensures
        r == inputs_ready(m, t as int, ready@),
{
    let mut k: usize = 0;
    while k < m.assigns.len()
        invariant
            m.wf(),
            ready@.len() == m.signals@.len(),
            k <= m.assigns@.len(),
            forall|j: int| 0 <= j < k && m.assigns@[j].target == t ==> #[trigger] reads_ready(m.assigns@[j].expr, ready@),
        decreases m.assigns@.len() - k,
    {
        let a = &m.assigns[k];
        proof {
            assert(m.assign_ok(m.assigns@[k as int]));
        }
        if a.target == t && !expr_ready(&a.expr, ready) {
            return false;
        }
        k = k + 1;
    }
    true
}

/// The number of unmarked entries.
pub open spec fn unmarked(s: Seq<bool>) -> nat
    decreases s.len(),
{
    if s.len() == 0 {
        0
    } else {
        unmarked(s.drop_last()) + if s.last() { 0nat } else { 1nat }
    }
}

proof fn lemma_unmarked_mark(s: Seq<bool>, i: int)
    requires
        0 <= i < s.len(),
        !s[i],
    ensures
        unmarked(s.update(i, true)) + 1 == unmarked(s),
    decreases s.len(),
{
    if i < s.len() - 1 {
        assert(s.update(i, true).drop_last() =~= s.drop_last().update(i, true));
        lemma_unmarked_mark(s.drop_last(), i);
    } else {
        assert(s.update(i, true).drop_last() =~= s.drop_last());
    }
}

proof fn lemma_unmarked_bound(s: Seq<bool>)
    ensures
        unmarked(s) <= s.len(),
    decreases s.len(),
{
    if s.len() > 0 {
        lemma_unmarked_bound(s.drop_last());
    }
}

/// When every unresolved signal has an assignment reading another unresolved
/// one, no ranking exists.
proof fn lemma_stuck_unordered(m: &Model, resolved: Seq<bool>, rank: Seq<nat>, u: int)
    requires
        m.wf(),
        resolved.len() == m.signals@.len(),
        rank.len() == m.signals@.len(),
        0 <= u < resolved.len(),
        !resolved[u],
        forall|t: int| 0 <= t < resolved.len() && !resolved[t] ==> !#[trigger] inputs_ready(m, t, resolved),
    ensures
        !ordered(m, rank),
    decreases rank[u],
{
    if ordered(m, rank) {
        assert(!inputs_ready(m, u, resolved));
        let k = choose|k: int|
            0 <= k < m.assigns@.len() && m.assigns@[k].target == u && !#[trigger] reads_ready(m.assigns@[k].expr, resolved);
        let s = unready_read(m.assigns@[k].expr, resolved);
        assert(m.assign_ok(m.assigns@[k]));
        lemma_reads_within(m.assigns@[k].expr, m.signals@.len(), s);
        assert(rank[s] < rank[u]);
        lemma_stuck_unordered(m, resolved, rank, s);
    }
}

/// Finds a combinational loop: `None` when the assignments can be ranked,
/// else a signal that cannot be ranked because it lies on or behind a loop.
/// Signals are ranked in rounds: a signal is ranked once every assignment to
/// it reads only signals ranked in earlier rounds.
pub fn find_loop(m: &Model) -> (r: Option<usize>)
    requires
        m.wf(),
    ensures
        r is None <==> acyclic(m),
        r matches Some(s) ==> s < m.signals@.len(),
{
    let n = m.signals.len();
    let mut resolved: Vec<bool> = Vec::new();
    let mut rank: Vec<u128> = Vec::new();
    let mut i: usize = 0;
    while i < n
        invariant
            i <= n,
            resolved@.len() == i,
            rank@.len() == i,
            forall|t: int| 0 <= t < i ==> !#[trigger] resolved@[t],
        decreases n - i,
    {
        resolved.push(false);
        rank.push(0);
        i = i + 1;
    }
    proof {
        lemma_all_unmarked(resolved@);
    }
    let mut round: u128 = 1;
    loop
        invariant
            m.wf(),
            n == m.signals@.len(),
            resolved@.len() == n,
            rank@.len() == n,
            1 <= round,
            round + unmarked(resolved@) <= n + 1,
            forall|t: int| 0 <= t < n && #[trigger] resolved@[t] ==> 1 <= rank@[t] < round,
            forall|k: int, s: int|
                0 <= k < m.assigns@.len() && resolved@[m.assigns@[k].target as int] && #[trigger] reads(m.assigns@[k].expr, s)
                    ==> resolved@[s] && rank@[s] < rank@[m.assigns@[k].target as int],
        decreases unmarked(resolved@),
    {
        let prev = resolved.clone();
        let ghost prev_rank = rank@;
        let ghost start = unmarked(resolved@);
        let mut changed = false;
        let mut t: usize = 0;
        while t < n
            invariant
                m.wf(),
                n == m.signals@.len(),
                resolved@.len() == n,
                rank@.len() == n,
                prev@.len() == n,
                prev_rank.len() == n,
                t <= n,
                1 <= round,
                round + start <= n + 1,
                unmarked(resolved@) <= start,
                changed ==> unmarked(resolved@) < start,
                !changed ==> resolved@ == prev@,
                forall|x: int| 0 <= x < n && #[trigger] prev@[x] ==> resolved@[x] && rank@[x] == prev_rank[x] && prev_rank[x] < round,
                forall|x: int| 0 <= x < n && resolved@[x] && !prev@[x] ==> #[trigger] rank@[x] == round,
                forall|x: int| 0 <= x < n && resolved@[x] && !prev@[x] ==> #[trigger] inputs_ready(m, x, prev@),
                forall|x: int| t <= x < n ==> resolved@[x] == #[trigger] prev@[x],
                forall|x: int| 0 <= x < t && !resolved@[x] ==> !#[trigger] inputs_ready(m, x, prev@),
            decreases n - t,
        {
            if !prev[t] && target_ready(m, t, &prev) {
                proof {
                    lemma_unmarked_mark(resolved@, t as int);
                }
                resolved.set(t, true);
                rank.set(t, round);
                changed = true;
            }
            t = t + 1;
        }
        proof {
            assert forall|k: int, s: int|
                0 <= k < m.assigns@.len() && resolved@[m.assigns@[k].target as int] && #[trigger] reads(m.assigns@[k].expr, s)
                    implies resolved@[s] && rank@[s] < rank@[m.assigns@[k].target as int] by {
                let tg = m.assigns@[k].target as int;
                assert(m.assign_ok(m.assigns@[k]));
                lemma_reads_within(m.assigns@[k].expr, n as nat, s);
                if !prev@[tg] {
                    assert(inputs_ready(m, tg, prev@));
                    assert(reads_ready(m.assigns@[k].expr, prev@));
                    lemma_ready_reads(m.assigns@[k].expr, prev@, s);
                } else {
                    assert(prev@[s] && prev_rank[s] < prev_rank[tg]);
                }
            }
            assert forall|x: int| 0 <= x < n && #[trigger] resolved@[x] implies 1 <= rank@[x] < round + 1 by {
                if prev@[x] {
                } else {
                    assert(rank@[x] == round);
                }
            }
        }
        if !changed {
            proof {
                assert forall|x: int| 0 <= x < n && !resolved@[x] implies !#[trigger] inputs_ready(m, x, resolved@) by {
                    assert(!inputs_ready(m, x, prev@));
                }
            }
            let mut u: usize = 0;
            while u < n
                invariant
                    m.wf(),
                    n == m.signals@.len(),
                    n == resolved@.len(),
                    u <= n,
                    forall|x: int| 0 <= x < u ==> #[trigger] resolved@[x],
                    forall|x: int| 0 <= x < n && !resolved@[x] ==> !#[trigger] inputs_ready(m, x, resolved@),
                decreases n - u,
            {
                if !resolved[u] {
                    proof {
                        assert forall|r: Seq<nat>| !ordered(m, r) by {
                            if r.len() == n {
                                lemma_stuck_unordered(m, resolved@, r, u as int);
                            }
                        }
                    }
                    return Some(u);
                }
                u = u + 1;
            }
            proof {
                let r = Seq::new(n as nat, |x: int| rank@[x] as nat);
                assert forall|k: int, s: int| 0 <= k < m.assigns@.len() && #[trigger] reads(m.assigns@[k].expr, s) implies r[s] < r[
                    m.assigns@[k].target as int
                ] by {
                    assert(m.assign_ok(m.assigns@[k]));
                    lemma_reads_within(m.assigns@[k].expr, n as nat, s);
                    assert(resolved@[m.assigns@[k].target as int]);
                }
                assert(ordered(m, r));
            }
            return None;
        }
        proof {
            lemma_unmarked_bound(resolved@);
        }
        round = round + 1;
    }
}

proof fn lemma_all_unmarked(s: Seq<bool>)
    requires
        forall|t: int| 0 <= t < s.len() ==> !#[trigger] s[t],
    ensures
        unmarked(s) == s.len(),
    decreases s.len(),
{
    if s.len() > 0 {
        lemma_all_unmarked(s.drop_last());
    }
}

/// A signal that depends, through a chain of assignments, on itself leaves
/// the assignments without a ranking; `validate` therefore rejects the model.
pub proof fn lemma_loop_not_acyclic(m: &Model, p: Seq<int>)
    requires
        m.wf(),
        is_loop(m, p),
    ensures
        !acyclic(m),
{
    assert forall|rank: Seq<nat>| !ordered(m, rank) by {
        if ordered(m, rank) {
            lemma_path_increases(m, p, rank, (p.len() - 1) as nat);
        }
    }
}

proof fn lemma_path_increases(m: &Model, p: Seq<int>, rank: Seq<nat>, j: nat)
    requires
        m.wf(),
        ordered(m, rank),
        1 <= j < p.len(),
        forall|i: int| 0 <= i < p.len() - 1 ==> #[trigger] feeds(m, p[i], p[i + 1]),
    ensures
        rank[p[0]] < rank[p[j as int]],
    decreases j,
{
    let i = j - 1;
    assert(feeds(m, p[i], p[i + 1]));
    let k = choose|k: int| 0 <= k < m.assigns@.len() && m.assigns@[k].target == p[i + 1] && #[trigger] reads(m.assigns@[k].expr, p[i]);
    assert(rank[p[i]] < rank[p[j as int]]);
    if j > 1 {
        lemma_path_increases(m, p, rank, (j - 1) as nat);
    }
}

} // verus!
