use vstd::prelude::*;
use crate::loops::{acyclic, find_loop};
use crate::model::{Assign, Direction, Model, Register};

verus! {

/// A structural fault, found before the model is simulated or emitted.
#[derive(Clone, Copy, Debug, PartialEq, Eq, Structural)]
pub enum ValidationError {
    /// An input that nothing drives.
    DanglingPort { signal: usize },
    /// A signal with more than one driver.
    MultipleDriver { signal: usize },
    /// A signal that lies on, or depends on, a loop of combinational
    /// assignments.
    CombinationalLoop { signal: usize },
}

/// How many of the assignments target `s`.
pub open spec fn assign_drivers(a: Seq<Assign>, s: int) -> nat
    decreases a.len(),
{
    if a.len() == 0 {
        0
    } else {
        assign_drivers(a.drop_last(), s) + if a.last().target == s { 1nat } else { 0nat }
    }
}

/// No assignment targets `s`: it has no assignment drivers.
pub proof fn lemma_assign_drivers_none(a: Seq<Assign>, s: int)
    requires
        forall|k: int| 0 <= k < a.len() ==> #[trigger] a[k].target != s,
    ensures
        assign_drivers(a, s) == 0,
    decreases a.len(),
{
    if a.len() > 0 {
        lemma_assign_drivers_none(a.drop_last(), s);
    }
}

/// How many of the registers load `s`.
pub open spec fn register_drivers(r: Seq<Register>, s: int) -> nat
    decreases r.len(),
{
    if r.len() == 0 {
        0
    } else {
        register_drivers(r.drop_last(), s) + if r.last().q == s { 1nat } else { 0nat }
    }
}

/// An input of the root component, which the surroundings drive.
pub open spec fn externally_driven(m: &Model, s: int) -> bool {
    m.signals@[s].owner == 0 && is_input(m.signals@[s].dir)
}

pub open spec fn is_input(d: Direction) -> bool {
    d == Direction::In || d == Direction::InOut
}

/// The number of drivers of signal `s`.
pub open spec fn drivers(m: &Model, s: int) -> nat {
    assign_drivers(m.assigns@, s) + register_drivers(m.registers@, s) + if externally_driven(m, s) {
        1nat
    } else {
        0nat
    }
}

/// What, if anything, is wrong with signal `s`.
pub open spec fn violation(m: &Model, s: int) -> Option<ValidationError> {
    if drivers(m, s) > 1 {
        Some(ValidationError::MultipleDriver { signal: s as usize })
    } else if drivers(m, s) == 0 && is_input(m.signals@[s].dir) {
        Some(ValidationError::DanglingPort { signal: s as usize })
    } else {
        None
    }
}

/// Every signal is driven at most once, and every input exactly once.
pub open spec fn connected(m: &Model) -> bool {
    forall|s: int| 0 <= s < m.signals@.len() ==> #[trigger] violation(m, s) is None
}

impl ValidationError {
    pub open spec fn signal_of(self) -> usize {
        match self {
            ValidationError::DanglingPort { signal } => signal,
            ValidationError::MultipleDriver { signal } => signal,
            ValidationError::CombinationalLoop { signal } => signal,
        }
    }
}

/// `x`, but no more than two.
pub open spec fn at_most_two(x: nat) -> nat {
    if x > 2 { 2 } else { x }
}

/// Checks that every input is driven exactly once, that no signal has two
/// drivers, and that the combinational assignments form no loop. A driver
/// fault names the first signal, by index, that has one; a loop is reported
/// only for a model free of driver faults.
pub fn validate(m: &Model) -> (r: Result<(), ValidationError>)
    requires
        m.wf(),
    ensures
        r is Ok <==> connected(m) && acyclic(m),
        r matches Err(e) ==> e.signal_of() < m.signals@.len(),
        r matches Err(e) ==> (!(e is CombinationalLoop) ==> {
            &&& violation(m, e.signal_of() as int) == Some(e)
            &&& forall|t: int| 0 <= t < e.signal_of() ==> #[trigger] violation(m, t) is None
        }),
        r matches Err(ValidationError::CombinationalLoop { signal }) ==> connected(m) && !acyclic(m),
{
    let n = m.signals.len();
    let mut counts: Vec<usize> = Vec::new();
    let mut i: usize = 0;
    while i < n
        invariant
            n == m.signals@.len(),
            i <= n,
            counts@.len() == i,
            forall|s: int| 0 <= s < i ==> counts@[s] == if externally_driven(m, s) { 1nat } else { 0nat },
        decreases n - i,
    {
        let d = &m.signals[i];
        if d.owner == 0 && (d.dir == Direction::In || d.dir == Direction::InOut) {
            counts.push(1);
        } else {
            counts.push(0);
        }
        i = i + 1;
    }
    let mut k: usize = 0;
    while k < m.assigns.len()
        invariant
            m.wf(),
            n == m.signals@.len(),
            counts@.len() == n,
            k <= m.assigns@.len(),
            forall|s: int|
                0 <= s < n ==> #[trigger] counts@[s] == at_most_two(assign_drivers(m.assigns@.take(k as int), s) + if externally_driven(m, s) {
                    1nat
                } else {
                    0nat
                }),
        decreases m.assigns@.len() - k,
    {
        let t = m.assigns[k].target;
        proof {
            assert(m.assign_ok(m.assigns@[k as int]));
            assert(m.assigns@.take(k + 1).drop_last() =~= m.assigns@.take(k as int));
        }
        if counts[t] < 2 {
            counts.set(t, counts[t] + 1);
        }
        k = k + 1;
    }
    proof {
        assert(m.assigns@.take(k as int) =~= m.assigns@);
    }
    let mut k: usize = 0;
    while k < m.registers.len()
        invariant
            m.wf(),
            n == m.signals@.len(),
            counts@.len() == n,
            k <= m.registers@.len(),
            forall|s: int|
                0 <= s < n ==> #[trigger] counts@[s] == at_most_two(assign_drivers(m.assigns@, s) + register_drivers(m.registers@.take(k as int), s)
                    + if externally_driven(m, s) { 1nat } else { 0nat }),
        decreases m.registers@.len() - k,
    {
        let q = m.registers[k].q;
        proof {
            assert(m.register_ok(m.registers@[k as int]));
            assert(m.registers@.take(k + 1).drop_last() =~= m.registers@.take(k as int));
        }
        if counts[q] < 2 {
            counts.set(q, counts[q] + 1);
        }
        k = k + 1;
    }
    proof {
        assert(m.registers@.take(k as int) =~= m.registers@);
    }
    let mut s: usize = 0;
    while s < n
        invariant
            n == m.signals@.len(),
            counts@.len() == n,
            s <= n,
            forall|x: int| 0 <= x < n ==> #[trigger] counts@[x] == at_most_two(drivers(m, x)),
            forall|t: int| 0 <= t < s ==> #[trigger] violation(m, t) is None,
        decreases n - s,
    {
        let d = &m.signals[s];
        let c = counts[s];
        if c > 1 {
            return Err(ValidationError::MultipleDriver { signal: s });
        }
        if c == 0 && (d.dir == Direction::In || d.dir == Direction::InOut) {
            return Err(ValidationError::DanglingPort { signal: s });
        }
        s = s + 1;
    }
    match find_loop(m) {
        Some(s) => Err(ValidationError::CombinationalLoop { signal: s }),
        None => Ok(()),
    }
}

} // verus!
