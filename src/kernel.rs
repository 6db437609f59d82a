use vstd::prelude::*;
use crate::bits::{truncate, truncate_to};
use crate::model::Model;
use crate::validate::register_drivers;

verus! {

/// A clock generator: flips `signal` at every multiple of `half_period`.
#[derive(Clone, Copy, Debug, PartialEq, Eq, Structural)]
pub struct ClockGen {
    pub signal: usize,
    pub half_period: u64,
}

/// A staged write of `value` to `signal`, applied at the next instant.
#[derive(Clone, Copy, Debug, PartialEq, Eq, Structural)]
pub struct Write {
    pub signal: usize,
    pub value: u64,
}

/// Signal `c` rose from zero between `before` and `v`.
pub open spec fn rose(before: Seq<u64>, v: Seq<u64>, c: int) -> bool {
    before[c] == 0 && v[c] != 0
}

/// The first `n` registers committed: each whose clock rose loads the value
/// its `d` has in `v`; all of them read `v`, none another's result.
pub open spec fn commit_prefix(m: &Model, before: Seq<u64>, v: Seq<u64>, n: nat) -> Seq<u64>
    decreases n,
{
    if n == 0 {
        v
    } else {
        let r = m.registers@[n - 1];
        let acc = commit_prefix(m, before, v, (n - 1) as nat);
        if rose(before, v, r.clock as int) {
            acc.update(r.q as int, truncate(v[r.d as int] as int, m.width_of(r.q as int)))
        } else {
            acc
        }
    }
}

/// Every register whose clock rose between `before` and `v` loads its input.
pub open spec fn commit(m: &Model, before: Seq<u64>, v: Seq<u64>) -> Seq<u64> {
    commit_prefix(m, before, v, m.registers@.len())
}

/// The staged writes applied in order, each cut to its signal's width.
pub open spec fn apply_writes(m: &Model, v: Seq<u64>, w: Seq<Write>) -> Seq<u64>
    decreases w.len(),
{
    if w.len() == 0 {
        v
    } else {
        let x = w.last();
        apply_writes(m, v, w.drop_last()).update(x.signal as int, truncate(x.value as int, m.width_of(x.signal as int)))
    }
}

/// The clock generator fires at time `t`.
pub open spec fn ticks(g: ClockGen, t: u64) -> bool {
    t > 0 && g.half_period > 0 && t % g.half_period == 0
}

/// The clocks that fire at time `t` flipped, in order.
pub open spec fn toggle_clocks(clocks: Seq<ClockGen>, v: Seq<u64>, t: u64) -> Seq<u64>
    decreases clocks.len(),
{
    if clocks.len() == 0 {
        v
    } else {
        let g = clocks.last();
        let acc = toggle_clocks(clocks.drop_last(), v, t);
        if ticks(g, t) {
            acc.update(g.signal as int, if acc[g.signal as int] == 0 { 1u64 } else { 0u64 })
        } else {
            acc
        }
    }
}

proof fn lemma_commit_prefix_len(m: &Model, before: Seq<u64>, v: Seq<u64>, n: nat)
    requires
        m.wf(),
        v.len() == m.signals@.len(),
        n <= m.registers@.len(),
    ensures
        commit_prefix(m, before, v, n).len() == v.len(),
    decreases n,
{
    if n > 0 {
        lemma_commit_prefix_len(m, before, v, (n - 1) as nat);
        assert(m.register_ok(m.registers@[n - 1]));
    }
}

proof fn lemma_commit_prefix_at(m: &Model, before: Seq<u64>, v: Seq<u64>, n: nat, s: int)
    requires
        m.wf(),
        v.len() == m.signals@.len(),
        n <= m.registers@.len(),
        0 <= s < v.len(),
    ensures
        register_drivers(m.registers@.take(n as int), s) == 0 ==> commit_prefix(m, before, v, n)[s] == v[s],
        forall|k: int|
            0 <= k < n && m.registers@[k].q == s && register_drivers(m.registers@.take(n as int), s) == 1
                && rose(before, v, m.registers@[k].clock as int) ==> #[trigger] commit_prefix(m, before, v, n)[s]
                == truncate(v[m.registers@[k].d as int] as int, m.width_of(s)),
    decreases n,
{
    if n > 0 {
        let prev = m.registers@.take(n - 1);
        assert(m.registers@.take(n as int).drop_last() =~= prev);
        lemma_commit_prefix_at(m, before, v, (n - 1) as nat, s);
        lemma_commit_prefix_len(m, before, v, (n - 1) as nat);
        assert(m.register_ok(m.registers@[n - 1]));
        assert forall|k: int|
            0 <= k < n && m.registers@[k].q == s && register_drivers(m.registers@.take(n as int), s) == 1
                && rose(before, v, m.registers@[k].clock as int) implies #[trigger] commit_prefix(m, before, v, n)[s]
                == truncate(v[m.registers@[k].d as int] as int, m.width_of(s)) by {
            if k < n - 1 {
                lemma_drivers_positive(prev, k, s);
            }
        }
    }
}

proof fn lemma_drivers_positive(r: Seq<crate::model::Register>, k: int, s: int)
    requires
        0 <= k < r.len(),
        r[k].q == s,
    ensures
        register_drivers(r, s) >= 1,
    decreases r.len(),
{
    if k < r.len() - 1 {
        lemma_drivers_positive(r.drop_last(), k, s);
    }
}

/// Edge semantics: at a rising edge a register's output becomes the value its
/// input had just before the edge, whatever the other registers load at the
/// same edge; a signal that no register loads is left alone.
pub proof fn lemma_edge_commit(m: &Model, before: Seq<u64>, v: Seq<u64>, k: int)
    requires
        m.wf(),
        v.len() == m.signals@.len(),
        0 <= k < m.registers@.len(),
        register_drivers(m.registers@, m.registers@[k].q as int) == 1,
    ensures
        rose(before, v, m.registers@[k].clock as int) ==> commit(m, before, v)[m.registers@[k].q as int]
            == truncate(v[m.registers@[k].d as int] as int, m.width_of(m.registers@[k].q as int)),
        !rose(before, v, m.registers@[k].clock as int) ==> commit(m, before, v)[m.registers@[k].q as int]
            == v[m.registers@[k].q as int],
        forall|s: int|
            0 <= s < v.len() && register_drivers(m.registers@, s) == 0 ==> #[trigger] commit(m, before, v)[s] == v[s],
{
    assert(m.registers@.take(m.registers@.len() as int) =~= m.registers@);
    assert(m.register_ok(m.registers@[k]));
    let q = m.registers@[k].q as int;
    lemma_commit_prefix_at(m, before, v, m.registers@.len(), q);
    assert forall|s: int| 0 <= s < v.len() && register_drivers(m.registers@, s) == 0 implies #[trigger] commit(m, before, v)[s] == v[s] by {
        lemma_commit_prefix_at(m, before, v, m.registers@.len(), s);
    }
    if !rose(before, v, m.registers@[k].clock as int) {
        lemma_commit_unfired(m, before, v, m.registers@.len(), k);
    }
}

proof fn lemma_commit_unfired(m: &Model, before: Seq<u64>, v: Seq<u64>, n: nat, k: int)
    requires
        m.wf(),
        v.len() == m.signals@.len(),
        n <= m.registers@.len(),
        0 <= k < m.registers@.len(),
        k < n ==> register_drivers(m.registers@.take(n as int), m.registers@[k].q as int) == 1,
        n <= k ==> register_drivers(m.registers@.take(n as int), m.registers@[k].q as int) == 0,
        !rose(before, v, m.registers@[k].clock as int),
    ensures
        commit_prefix(m, before, v, n)[m.registers@[k].q as int] == v[m.registers@[k].q as int],
    decreases n,
{
    assert(m.register_ok(m.registers@[k]));
    let q = m.registers@[k].q as int;
    if n > 0 {
        let prev = m.registers@.take(n - 1);
        assert(m.registers@.take(n as int).drop_last() =~= prev);
        lemma_commit_prefix_len(m, before, v, (n - 1) as nat);
        if n - 1 == k {
            lemma_commit_prefix_at(m, before, v, (n - 1) as nat, q);
        } else {
            if k < n - 1 {
                lemma_drivers_positive(prev, k, q);
            }
            lemma_commit_unfired(m, before, v, (n - 1) as nat, k);
        }
    }
}

/// Committing leaves alone every signal that no register loads.
pub proof fn lemma_commit_keeps_unloaded(m: &Model, before: Seq<u64>, v: Seq<u64>, s: int)
    requires
        m.wf(),
        v.len() == m.signals@.len(),
        0 <= s < v.len(),
        register_drivers(m.registers@, s) == 0,
    ensures
        commit(m, before, v)[s] == v[s],
        commit(m, before, v).len() == v.len(),
{
    assert(m.registers@.take(m.registers@.len() as int) =~= m.registers@);
    lemma_commit_prefix_at(m, before, v, m.registers@.len(), s);
    lemma_commit_prefix_len(m, before, v, m.registers@.len());
}

/// Applying writes to existing signals keeps the length.
pub proof fn lemma_apply_writes_len(m: &Model, v: Seq<u64>, w: Seq<Write>)
    requires
        forall|k: int| 0 <= k < w.len() ==> #[trigger] w[k].signal < v.len(),
    ensures
        apply_writes(m, v, w).len() == v.len(),
    decreases w.len(),
{
    if w.len() > 0 {
        lemma_apply_writes_len(m, v, w.drop_last());
    }
}

/// Clock generators leave alone every signal that none of them flips.
pub proof fn lemma_toggle_keeps_others(clocks: Seq<ClockGen>, v: Seq<u64>, t: u64, s: int)
    requires
        0 <= s < v.len(),
        forall|k: int| 0 <= k < clocks.len() ==> #[trigger] clocks[k].signal < v.len() && clocks[k].signal != s,
    ensures
        toggle_clocks(clocks, v, t)[s] == v[s],
        toggle_clocks(clocks, v, t).len() == v.len(),
    decreases clocks.len(),
{
    if clocks.len() > 0 {
        assert forall|k: int| 0 <= k < clocks.drop_last().len() implies #[trigger] clocks.drop_last()[k].signal < v.len()
            && clocks.drop_last()[k].signal != s by {
            assert(clocks.drop_last()[k] == clocks[k]);
        }
        lemma_toggle_keeps_others(clocks.drop_last(), v, t, s);
        assert(clocks.last() == clocks[clocks.len() - 1]);
    }
}

/// Commits every register whose clock rose between `before` and `vals`.
pub fn commit_registers(m: &Model, before: &Vec<u64>, vals: &Vec<u64>) -> (r: Vec<u64>)
    requires
        m.wf(),
        before@.len() == m.signals@.len(),
        vals@.len() == m.signals@.len(),
    ensures
        r@ == commit(m, before@, vals@),
        r@.len() == vals@.len(),
{
    let mut r = vals.clone();
    let mut k: usize = 0;
    while k < m.registers.len()
        invariant
            m.wf(),
            before@.len() == m.signals@.len(),
            vals@.len() == m.signals@.len(),
            k <= m.registers@.len(),
            r@ == commit_prefix(m, before@, vals@, k as nat),
        decreases m.registers@.len() - k,
    {
        let g = m.registers[k];
        proof {
            assert(m.register_ok(m.registers@[k as int]));
            assert(m.signal_ok(m.signals@[g.q as int]));
            lemma_commit_prefix_len(m, before@, vals@, k as nat);
        }
        if before[g.clock] == 0 && vals[g.clock] != 0 {
            let x = truncate_to(vals[g.d] as u128, m.signals[g.q].width);
            r.set(g.q, x);
        }
        k = k + 1;
    }
    proof {
        lemma_commit_prefix_len(m, before@, vals@, k as nat);
    }
    r
}

/// Applies the staged writes to `vals`, in order.
pub fn apply_staged(m: &Model, vals: &mut Vec<u64>, w: &Vec<Write>)
    requires
        m.wf(),
        old(vals)@.len() == m.signals@.len(),
        forall|k: int| 0 <= k < w@.len() ==> #[trigger] w@[k].signal < m.signals@.len(),
    ensures
        final(vals)@ == apply_writes(m, old(vals)@, w@),
        final(vals)@.len() == old(vals)@.len(),
{
    let mut k: usize = 0;
    while k < w.len()
        invariant
            m.wf(),
            k <= w@.len(),
            forall|j: int| 0 <= j < w@.len() ==> #[trigger] w@[j].signal < m.signals@.len(),
            vals@ == apply_writes(m, old(vals)@, w@.take(k as int)),
            vals@.len() == m.signals@.len(),
        decreases w@.len() - k,
    {
        let x = w[k];
        proof {
            assert(m.signal_ok(m.signals@[x.signal as int]));
            assert(w@.take(k + 1).drop_last() =~= w@.take(k as int));
        }
        let y = truncate_to(x.value as u128, m.signals[x.signal].width);
        vals.set(x.signal, y);
        k = k + 1;
    }
    proof {
        assert(w@.take(k as int) =~= w@);
    }
}

/// Flips the clocks that fire at time `t`.
pub fn tick_clocks(clocks: &Vec<ClockGen>, vals: &mut Vec<u64>, t: u64)
    requires
        forall|k: int| 0 <= k < clocks@.len() ==> #[trigger] clocks@[k].signal < old(vals)@.len(),
    ensures
        final(vals)@ == toggle_clocks(clocks@, old(vals)@, t),
        final(vals)@.len() == old(vals)@.len(),
{
    let mut k: usize = 0;
    while k < clocks.len()
        invariant
            k <= clocks@.len(),
            forall|j: int| 0 <= j < clocks@.len() ==> #[trigger] clocks@[j].signal < old(vals)@.len(),
            vals@ == toggle_clocks(clocks@.take(k as int), old(vals)@, t),
            vals@.len() == old(vals)@.len(),
        decreases clocks@.len() - k,
    {
        let g = clocks[k];
        proof {
            assert(clocks@.take(k + 1).drop_last() =~= clocks@.take(k as int));
            assert(clocks@.take(k + 1).last() == g);
        }
        if t > 0 && g.half_period > 0 && t % g.half_period == 0 {
            let x = if vals[g.signal] == 0 { 1u64 } else { 0u64 };
            vals.set(g.signal, x);
        }
        k = k + 1;
    }
    proof {
        assert(clocks@.take(k as int) =~= clocks@);
    }
}

} // verus!
