use vstd::prelude::*;
use crate::expr::{eval, eval_expr, reads_within, Expr};
use crate::kernel::{lemma_apply_writes_len, lemma_commit_keeps_unloaded, lemma_toggle_keeps_others, apply_staged, apply_writes, commit, commit_registers, tick_clocks, toggle_clocks, ClockGen, Write};
use crate::model::Model;
use crate::settle::{comb_driven, lemma_settle_keeps_undriven, settle, settle_bound, settle_from, step};
use crate::validate::register_drivers;

verus! {

/// One step of a testbench script.
#[derive(Debug)]
pub enum Action {
    /// Stage a write of a value to a signal; it lands at the next instant.
    Drive(usize, u64),
    /// Block until the given amount of logical time has passed.
    Wait(u64),
    /// Block until the predicate holds (is non-zero); fail if it has not held
    /// once the given amount of logical time has passed.
    Watch(Expr, u64),
    /// Fail unless the predicate holds now.
    Check(Expr),
}

/// A cooperative task: a script run alongside the circuit.
#[derive(Debug)]
pub struct Testbench {
    pub actions: Vec<Action>,
}

/// Where a testbench stands: the action it is at, and, when it is blocked on a
/// `Wait` or `Watch`, the time at which that block ends.
#[derive(Clone, Copy, Debug, PartialEq, Eq, Structural)]
pub struct TaskState {
    pub pc: usize,
    pub armed: bool,
    pub deadline: u64,
}

/// A value change recorded in the trace.
#[derive(Clone, Copy, Debug, PartialEq, Eq, Structural)]
pub struct Change {
    pub time: u64,
    pub signal: usize,
    pub value: u64,
}

/// Why a run stopped early.
#[derive(Clone, Copy, Debug, PartialEq, Eq, Structural)]
pub enum SimulationError {
    /// Settling failed at `time`; `signal` is the first one still changing.
    CombinationalCycle { time: u64, signal: usize },
    /// Testbench `task` watched a predicate that did not hold in time.
    WatchTimeout { task: usize, time: u64 },
    /// Testbench `task` checked a predicate that did not hold.
    AssertionFailed { task: usize, time: u64 },
    /// The time bound of the run passed with testbenches still running.
    MaxTimeExceeded { time: u64 },
}

/// A circuit with its clock generators and testbenches, run together.
#[derive(Debug)]
pub struct Simulation {
    pub model: Model,
    pub clocks: Vec<ClockGen>,
    pub testbenches: Vec<Testbench>,
}

/// The state of a run: the time, the settled signal values, the writes staged
/// for the next instant, the testbenches' states and the trace so far.
#[derive(Debug)]
pub struct SimState {
    pub time: u64,
    pub values: Vec<u64>,
    pub staged: Vec<Write>,
    pub tasks: Vec<TaskState>,
    pub trace: Vec<Change>,
}

/// What a `SimState` holds, as mathematical values.
pub struct SimView {
    pub time: u64,
    pub values: Seq<u64>,
    pub staged: Seq<Write>,
    pub tasks: Seq<TaskState>,
    pub trace: Seq<Change>,
}

impl SimState {
    pub open spec fn view(&self) -> SimView {
        SimView {
            time: self.time,
            values: self.values@,
            staged: self.staged@,
            tasks: self.tasks@,
            trace: self.trace@,
        }
    }
}

/// The predicate `p` holds over `v`.
pub open spec fn holds(p: Expr, v: Seq<u64>) -> bool {
    eval(p, v, 64) != 0
}

/// `a + b`, or the largest time if that overflows.
pub open spec fn sat_add(a: u64, b: u64) -> u64 {
    if a + b > u64::MAX { u64::MAX } else { (a + b) as u64 }
}

pub open spec fn next_action(pc: usize) -> TaskState {
    TaskState { pc: (pc + 1) as usize, armed: false, deadline: 0 }
}

/// Testbench `task` runs at time `t` over the settled values `v` until it
/// blocks or ends, from state `ts`, adding its writes to `staged`.
pub open spec fn run_task(
    acts: Seq<Action>,
    v: Seq<u64>,
    t: u64,
    ts: TaskState,
    staged: Seq<Write>,
    task: usize,
) -> Result<(TaskState, Seq<Write>), SimulationError>
    decreases acts.len() - ts.pc,
{
    if ts.pc >= acts.len() || ts.pc == usize::MAX {
        Ok((ts, staged))
    } else {
        match acts[ts.pc as int] {
            Action::Drive(s, x) => run_task(acts, v, t, next_action(ts.pc), staged.push(Write { signal: s, value: x }), task),
            Action::Wait(d) => {
                let dl = if ts.armed { ts.deadline } else { sat_add(t, d) };
                if t >= dl {
                    run_task(acts, v, t, next_action(ts.pc), staged, task)
                } else {
                    Ok((TaskState { pc: ts.pc, armed: true, deadline: dl }, staged))
                }
            },
            Action::Watch(p, limit) => {
                if holds(p, v) {
                    run_task(acts, v, t, next_action(ts.pc), staged, task)
                } else {
                    let dl = if ts.armed { ts.deadline } else { sat_add(t, limit) };
                    if t >= dl {
                        Err(SimulationError::WatchTimeout { task, time: t })
                    } else {
                        Ok((TaskState { pc: ts.pc, armed: true, deadline: dl }, staged))
                    }
                }
            },
            Action::Check(p) => {
                if holds(p, v) {
                    run_task(acts, v, t, next_action(ts.pc), staged, task)
                } else {
                    Err(SimulationError::AssertionFailed { task, time: t })
                }
            },
        }
    }
}

/// The first index from `s` on where `a` and `b` differ, or their length.
pub open spec fn first_diff(a: Seq<u64>, b: Seq<u64>, s: nat) -> nat
    decreases b.len() - s,
{
    if s >= b.len() || a[s as int] != b[s as int] {
        s
    } else {
        first_diff(a, b, s + 1)
    }
}

/// The value changes from `before` to `after` among the first `n` signals, in
/// signal order, stamped with time `t`.
pub open spec fn changes(before: Seq<u64>, after: Seq<u64>, t: u64, n: nat) -> Seq<Change>
    decreases n,
{
    if n == 0 {
        Seq::empty()
    } else {
        let prev = changes(before, after, t, (n - 1) as nat);
        if before[n - 1] != after[n - 1] {
            prev.push(Change { time: t, signal: (n - 1) as usize, value: after[n - 1] })
        } else {
            prev
        }
    }
}

pub proof fn lemma_first_diff(a: Seq<u64>, b: Seq<u64>, s: nat, e: nat)
    requires
        s <= e < b.len(),
        a[e as int] != b[e as int],
        forall|t: int| s <= t < e ==> a[t] == b[t],
    ensures
        first_diff(a, b, s) == e,
    decreases e - s,
{
    if s < e {
        lemma_first_diff(a, b, s + 1, e);
    }
}

impl Simulation {
    pub open spec fn action_ok(&self, a: Action) -> bool {
        match a {
            Action::Drive(s, _) => s < self.model.signals@.len(),
            Action::Wait(_) => true,
            Action::Watch(p, _) => reads_within(p, self.model.signals@.len()),
            Action::Check(p) => reads_within(p, self.model.signals@.len()),
        }
    }

    pub open spec fn testbench_ok(&self, tb: Testbench) -> bool {
        forall|k: int| 0 <= k < tb.actions@.len() ==> self.action_ok(#[trigger] tb.actions@[k])
    }

    /// A well-formed model, and clocks and testbenches that refer to its signals.
    pub open spec fn wf(&self) -> bool {
        &&& self.model.wf()
        &&& forall|k: int| 0 <= k < self.clocks@.len() ==> #[trigger] self.clocks@[k].signal < self.model.signals@.len()
        &&& forall|i: int| 0 <= i < self.testbenches@.len() ==> self.testbench_ok(#[trigger] self.testbenches@[i])
    }

    /// Settles `v` at time `t`, naming the first unsettled signal on failure.
    pub open spec fn settle_at(&self, v: Seq<u64>, t: u64) -> Result<Seq<u64>, SimulationError> {
        match settle_from(&self.model, v, settle_bound(&self.model)) {
            Ok(x) => Ok(x),
            Err(x) => Err(
                SimulationError::CombinationalCycle { time: t, signal: first_diff(step(&self.model, x), x, 0) as usize },
            ),
        }
    }

    /// The settled values at time `t`, from the values `before` of the last
    /// instant: staged writes land, clocks flip, the circuit settles, the
    /// registers whose clocks rose load, and the circuit settles again.
    pub open spec fn instant_values(&self, before: Seq<u64>, staged: Seq<Write>, t: u64) -> Result<Seq<u64>, SimulationError> {
        let v1 = toggle_clocks(self.clocks@, apply_writes(&self.model, before, staged), t);
        match self.settle_at(v1, t) {
            Err(e) => Err(e),
            Ok(v2) => self.settle_at(commit(&self.model, before, v2), t),
        }
    }

    /// The first `n` testbenches, in order, run at time `t` over `v`.
    pub open spec fn run_tasks(&self, v: Seq<u64>, t: u64, tasks: Seq<TaskState>, n: nat) -> Result<
        (Seq<TaskState>, Seq<Write>),
        SimulationError,
    >
        decreases n,
    {
        if n == 0 {
            Ok((tasks, Seq::empty()))
        } else {
            match self.run_tasks(v, t, tasks, (n - 1) as nat) {
                Err(e) => Err(e),
                Ok((ts, staged)) => match run_task(
                    self.testbenches@[n - 1].actions@,
                    v,
                    t,
                    ts[n - 1],
                    staged,
                    (n - 1) as usize,
                ) {
                    Err(e) => Err(e),
                    Ok((x, staged2)) => Ok((ts.update(n - 1, x), staged2)),
                },
            }
        }
    }

    /// Every testbench has reached the end of its script.
    pub open spec fn all_done(&self, tasks: Seq<TaskState>) -> bool {
        forall|i: int| 0 <= i < self.testbenches@.len() ==> #[trigger] tasks[i].pc >= self.testbenches@[i].actions@.len()
    }

    /// The instant after `st`.
    pub open spec fn next_instant(&self, st: SimView) -> Result<SimView, SimulationError> {
        let t = (st.time + 1) as u64;
        match self.instant_values(st.values, st.staged, t) {
            Err(e) => Err(e),
            Ok(v) => match self.run_tasks(v, t, st.tasks, self.testbenches@.len()) {
                Err(e) => Err(e),
                Ok((ts, staged)) => Ok(
                    SimView {
                        time: t,
                        values: v,
                        staged,
                        tasks: ts,
                        trace: st.trace + changes(st.values, v, t, v.len()),
                    },
                ),
            },
        }
    }

    /// Runs instants from `st` until every testbench is done, a failure, or
    /// the time bound.
    pub open spec fn run_from(&self, st: SimView, max_time: u64, fuel: nat) -> (Result<(), SimulationError>, SimView)
        decreases fuel,
    {
        if self.all_done(st.tasks) {
            (Ok(()), st)
        } else if st.time >= max_time || fuel == 0 {
            (Err(SimulationError::MaxTimeExceeded { time: st.time }), st)
        } else {
            match self.next_instant(st) {
                Err(e) => (Err(e), st),
                Ok(st2) => self.run_from(st2, max_time, (fuel - 1) as nat),
            }
        }
    }

    pub open spec fn zeros(&self) -> Seq<u64> {
        Seq::new(self.model.signals@.len(), |i: int| 0u64)
    }

    pub open spec fn fresh_tasks(&self) -> Seq<TaskState> {
        Seq::new(self.testbenches@.len(), |i: int| TaskState { pc: 0, armed: false, deadline: 0 })
    }

    /// The state at time zero: every signal zero, then settled, then the
    /// testbenches' first steps.
    pub open spec fn start(&self) -> Result<SimView, SimulationError> {
        match self.settle_at(self.zeros(), 0) {
            Err(e) => Err(e),
            Ok(v) => match self.run_tasks(v, 0, self.fresh_tasks(), self.testbenches@.len()) {
                Err(e) => Err(e),
                Ok((ts, staged)) => Ok(
                    SimView {
                        time: 0,
                        values: v,
                        staged,
                        tasks: ts,
                        trace: changes(self.zeros(), v, 0, v.len()),
                    },
                ),
            },
        }
    }

    /// The outcome of a run bounded by `max_time`, with the last state reached
    /// before it stopped.
    pub open spec fn run_spec(&self, max_time: u64) -> (Result<(), SimulationError>, SimView) {
        match self.start() {
            Err(e) => (
                Err(e),
                SimView {
                    time: 0,
                    values: self.zeros(),
                    staged: Seq::empty(),
                    tasks: self.fresh_tasks(),
                    trace: Seq::empty(),
                },
            ),
            Ok(st) => self.run_from(st, max_time, max_time as nat),
        }
    }
}


proof fn lemma_run_tasks_err(sim: &Simulation, v: Seq<u64>, t: u64, tasks: Seq<TaskState>, i: nat, n: nat)
    requires
        i <= n,
        sim.run_tasks(v, t, tasks, i) is Err,
    ensures
        sim.run_tasks(v, t, tasks, n) == sim.run_tasks(v, t, tasks, i),
    decreases n - i,
{
    if i < n {
        lemma_run_tasks_err(sim, v, t, tasks, i, (n - 1) as nat);
    }
}

/// Rendezvous through a signal: a signal that only testbenches drive (no
/// assignment, register or clock generator does) holds, at the instant after
/// writes were staged for it, the value the last of them gave it; the writes
/// staged during an instant are invisible within that instant, since every
/// testbench there reads the values settled before it ran.
pub proof fn lemma_staged_write_lands_next(sim: &Simulation, st: SimView, s: int)
    requires
        sim.wf(),
        st.values.len() == sim.model.signals@.len(),
        forall|k: int| 0 <= k < st.staged.len() ==> #[trigger] st.staged[k].signal < sim.model.signals@.len(),
        0 <= s < sim.model.signals@.len(),
        !comb_driven(&sim.model, s),
        register_drivers(sim.model.registers@, s) == 0,
        forall|k: int| 0 <= k < sim.clocks@.len() ==> #[trigger] sim.clocks@[k].signal != s,
    ensures
        sim.next_instant(st) matches Ok(next) ==> next.values[s] == apply_writes(&sim.model, st.values, st.staged)[s],
{
    let m = &sim.model;
    let t = (st.time + 1) as u64;
    let v0 = apply_writes(m, st.values, st.staged);
    lemma_apply_writes_len(m, st.values, st.staged);
    let v1 = toggle_clocks(sim.clocks@, v0, t);
    assert forall|k: int| 0 <= k < sim.clocks@.len() implies #[trigger] sim.clocks@[k].signal < v0.len()
        && sim.clocks@[k].signal != s by {
        assert(sim.clocks@[k].signal != s);
    }
    lemma_toggle_keeps_others(sim.clocks@, v0, t, s);
    lemma_settle_keeps_undriven(m, v1, settle_bound(m), s);
    if let Ok(v2) = settle_from(m, v1, settle_bound(m)) {
        lemma_commit_keeps_unloaded(m, st.values, v2, s);
        let v3 = commit(m, st.values, v2);
        lemma_settle_keeps_undriven(m, v3, settle_bound(m), s);
    }
}

/// Determinism: two runs of the same simulation under the same bound end
/// the same way, with the same values and the same trace.
pub proof fn lemma_run_deterministic(s1: &Simulation, s2: &Simulation, max_time: u64)
    requires
        s1 == s2,
    ensures
        s1.run_spec(max_time).0 == s2.run_spec(max_time).0,
        s1.run_spec(max_time).1.values == s2.run_spec(max_time).1.values,
        s1.run_spec(max_time).1.trace == s2.run_spec(max_time).1.trace,
{
}

/// Appends to `trace` the changes from `before` to `after`, stamped `t`.
pub fn push_changes(before: &Vec<u64>, after: &Vec<u64>, t: u64, trace: &mut Vec<Change>)
    requires
        before@.len() == after@.len(),
    ensures
        final(trace)@ == old(trace)@ + changes(before@, after@, t, after@.len()),
{
    let mut s: usize = 0;
    while s < after.len()
        invariant
            before@.len() == after@.len(),
            s <= after@.len(),
            trace@ == old(trace)@ + changes(before@, after@, t, s as nat),
        decreases after@.len() - s,
    {
        if before[s] != after[s] {
            trace.push(Change { time: t, signal: s, value: after[s] });
        }
        s = s + 1;
        proof {
            assert(trace@ =~= old(trace)@ + changes(before@, after@, t, s as nat));
        }
    }
}

impl Testbench {
    /// An empty script.
    pub fn new() -> (r: Testbench)
        ensures
            r.actions@.len() == 0,
    {
        Testbench { actions: Vec::new() }
    }

    /// Appends an action to the script.
    pub fn push(&mut self, a: Action)
        ensures
            final(self).actions@ == old(self).actions@.push(a),
    {
        self.actions.push(a);
    }
}

impl Simulation {
    /// A simulation of `model` with no clocks and no testbenches.
    pub fn new(model: Model) -> (r: Simulation)
        requires
            model.wf(),
        ensures
            r.wf(),
            r.model == model,
            r.clocks@.len() == 0,
            r.testbenches@.len() == 0,
    {
        Simulation { model, clocks: Vec::new(), testbenches: Vec::new() }
    }

    /// Adds a clock generator that flips `signal` every `half_period` units.
    pub fn add_clock(&mut self, half_period: u64, signal: usize)
        requires
            old(self).wf(),
            signal < old(self).model.signals@.len(),
        ensures
            final(self).wf(),
            final(self).model == old(self).model,
            final(self).testbenches@ == old(self).testbenches@,
            final(self).clocks@ == old(self).clocks@.push(ClockGen { signal, half_period }),
    {
        self.clocks.push(ClockGen { signal, half_period });
        proof {
            assert forall|i: int| 0 <= i < self.testbenches@.len() implies self.testbench_ok(#[trigger] self.testbenches@[i]) by {
                assert(old(self).testbench_ok(old(self).testbenches@[i]));
                assert forall|k: int| 0 <= k < self.testbenches@[i].actions@.len() implies self.action_ok(#[trigger] self.testbenches@[i].actions@[k]) by {
                    assert(old(self).action_ok(old(self).testbenches@[i].actions@[k]));
                }
            }
        }
    }

    /// Adds a testbench, to run alongside the circuit and the others.
    pub fn add_testbench(&mut self, tb: Testbench)
        requires
            old(self).wf(),
            old(self).testbench_ok(tb),
        ensures
            final(self).wf(),
            final(self).model == old(self).model,
            final(self).clocks@ == old(self).clocks@,
            final(self).testbenches@ == old(self).testbenches@.push(tb),
    {
        self.testbenches.push(tb);
    }

    fn settle_at_exec(&self, v: Vec<u64>, t: u64) -> (r: Result<Vec<u64>, SimulationError>)
        requires
            self.wf(),
            v@.len() == self.model.signals@.len(),
        ensures
            r matches Ok(x) ==> self.settle_at(v@, t) == Ok::<Seq<u64>, SimulationError>(x@) && x@.len() == v@.len(),
            r matches Err(e) ==> self.settle_at(v@, t) == Err::<Seq<u64>, SimulationError>(e),
    {
        let mut v = v;
        match settle(&self.model, &mut v) {
            Ok(()) => Ok(v),
            Err(e) => {
                proof {
                    lemma_first_diff(step(&self.model, v@), v@, 0, e.signal as nat);
                }
                Err(SimulationError::CombinationalCycle { time: t, signal: e.signal })
            },
        }
    }

    fn instant_exec(&self, before: &Vec<u64>, staged: &Vec<Write>, t: u64) -> (r: Result<Vec<u64>, SimulationError>)
        requires
            self.wf(),
            before@.len() == self.model.signals@.len(),
            forall|k: int| 0 <= k < staged@.len() ==> #[trigger] staged@[k].signal < self.model.signals@.len(),
        ensures
            r matches Ok(x) ==> self.instant_values(before@, staged@, t) == Ok::<Seq<u64>, SimulationError>(x@)
                && x@.len() == before@.len(),
            r matches Err(e) ==> self.instant_values(before@, staged@, t) == Err::<Seq<u64>, SimulationError>(e),
    {
        let mut v1 = before.clone();
        apply_staged(&self.model, &mut v1, staged);
        tick_clocks(&self.clocks, &mut v1, t);
        match self.settle_at_exec(v1, t) {
            Err(e) => Err(e),
            Ok(v2) => {
                let v3 = commit_registers(&self.model, before, &v2);
                self.settle_at_exec(v3, t)
            },
        }
    }

    fn run_task_exec(&self, i: usize, v: &Vec<u64>, t: u64, ts: TaskState, staged: Vec<Write>) -> (r: Result<
        (TaskState, Vec<Write>),
        SimulationError,
    >)
        requires
            self.wf(),
            i < self.testbenches@.len(),
            v@.len() == self.model.signals@.len(),
            forall|k: int| 0 <= k < staged@.len() ==> #[trigger] staged@[k].signal < self.model.signals@.len(),
        ensures
            r matches Ok((x, s)) ==> {
                &&& run_task(self.testbenches@[i as int].actions@, v@, t, ts, staged@, i) == Ok::<
                    (TaskState, Seq<Write>),
                    SimulationError,
                >((x, s@))
                &&& forall|k: int| 0 <= k < s@.len() ==> #[trigger] s@[k].signal < self.model.signals@.len()
            },
            r matches Err(e) ==> run_task(self.testbenches@[i as int].actions@, v@, t, ts, staged@, i) == Err::<
                (TaskState, Seq<Write>),
                SimulationError,
            >(e),
    {
        let acts = &self.testbenches[i].actions;
        let ghost goal = run_task(acts@, v@, t, ts, staged@, i);
        let mut cur = ts;
        let mut out = staged;
        proof {
            assert(self.testbench_ok(self.testbenches@[i as int]));
        }
        loop
            invariant
                self.wf(),
                i < self.testbenches@.len(),
                acts == &self.testbenches@[i as int].actions,
                self.testbench_ok(self.testbenches@[i as int]),
                v@.len() == self.model.signals@.len(),
                forall|k: int| 0 <= k < out@.len() ==> #[trigger] out@[k].signal < self.model.signals@.len(),
                goal == run_task(acts@, v@, t, cur, out@, i),
                goal == run_task(self.testbenches@[i as int].actions@, v@, t, ts, staged@, i),
            decreases acts@.len() - cur.pc,
        {
            if cur.pc >= acts.len() {
                return Ok((cur, out));
            }
            proof {
                assert(self.action_ok(acts@[cur.pc as int]));
            }
            match &acts[cur.pc] {
                Action::Drive(s, x) => {
                    out.push(Write { signal: *s, value: *x });
                    cur = TaskState { pc: cur.pc + 1, armed: false, deadline: 0 };
                },
                Action::Wait(d) => {
                    let dl = if cur.armed { cur.deadline } else if *d <= u64::MAX - t { t + *d } else { u64::MAX };
                    if t >= dl {
                        cur = TaskState { pc: cur.pc + 1, armed: false, deadline: 0 };
                    } else {
                        return Ok((TaskState { pc: cur.pc, armed: true, deadline: dl }, out));
                    }
                },
                Action::Watch(p, limit) => {
                    if eval_expr(p, v, 64) != 0 {
                        cur = TaskState { pc: cur.pc + 1, armed: false, deadline: 0 };
                    } else {
                        let dl = if cur.armed { cur.deadline } else if *limit <= u64::MAX - t { t + *limit } else { u64::MAX };
                        if t >= dl {
                            return Err(SimulationError::WatchTimeout { task: i, time: t });
                        } else {
                            return Ok((TaskState { pc: cur.pc, armed: true, deadline: dl }, out));
                        }
                    }
                },
                Action::Check(p) => {
                    if eval_expr(p, v, 64) != 0 {
                        cur = TaskState { pc: cur.pc + 1, armed: false, deadline: 0 };
                    } else {
                        return Err(SimulationError::AssertionFailed { task: i, time: t });
                    }
                },
            }
        }
    }

    fn run_tasks_exec(&self, v: &Vec<u64>, t: u64, tasks: Vec<TaskState>) -> (r: Result<
        (Vec<TaskState>, Vec<Write>),
        SimulationError,
    >)
        requires
            self.wf(),
            v@.len() == self.model.signals@.len(),
            tasks@.len() == self.testbenches@.len(),
        ensures
            r matches Ok((ts, s)) ==> {
                &&& self.run_tasks(v@, t, tasks@, self.testbenches@.len()) == Ok::<
                    (Seq<TaskState>, Seq<Write>),
                    SimulationError,
                >((ts@, s@))
                &&& ts@.len() == tasks@.len()
                &&& forall|k: int| 0 <= k < s@.len() ==> #[trigger] s@[k].signal < self.model.signals@.len()
            },
            r matches Err(e) ==> self.run_tasks(v@, t, tasks@, self.testbenches@.len()) == Err::<
                (Seq<TaskState>, Seq<Write>),
                SimulationError,
            >(e),
    {
        let ghost start = tasks@;
        let mut ts = tasks;
        let mut staged: Vec<Write> = Vec::new();
        let mut i: usize = 0;
        while i < self.testbenches.len()
            invariant
                self.wf(),
                v@.len() == self.model.signals@.len(),
                i <= self.testbenches@.len(),
                ts@.len() == self.testbenches@.len(),
                start == tasks@,
                forall|k: int| 0 <= k < staged@.len() ==> #[trigger] staged@[k].signal < self.model.signals@.len(),
                self.run_tasks(v@, t, start, i as nat) == Ok::<(Seq<TaskState>, Seq<Write>), SimulationError>(
                    (ts@, staged@),
                ),
            decreases self.testbenches@.len() - i,
        {
            match self.run_task_exec(i, v, t, ts[i], staged) {
                Err(e) => {
                    proof {
                        lemma_run_tasks_err(self, v@, t, start, (i + 1) as nat, self.testbenches@.len());
                    }
                    return Err(e);
                },
                Ok((x, s2)) => {
                    ts.set(i, x);
                    staged = s2;
                },
            }
            i = i + 1;
        }
        Ok((ts, staged))
    }

    fn all_done_exec(&self, tasks: &Vec<TaskState>) -> (r: bool)
        requires
            tasks@.len() == self.testbenches@.len(),
        ensures
            r == self.all_done(tasks@),
    {
        let mut i: usize = 0;
        while i < tasks.len()
            invariant
                tasks@.len() == self.testbenches@.len(),
                i <= tasks@.len(),
                forall|j: int| 0 <= j < i ==> #[trigger] tasks@[j].pc >= self.testbenches@[j].actions@.len(),
            decreases tasks@.len() - i,
        {
            if tasks[i].pc < self.testbenches[i].actions.len() {
                return false;
            }
            i = i + 1;
        }
        true
    }

    /// A state that a run of this simulation can be in: values for every
    /// signal, a state for every testbench, and writes to existing signals.
    pub open spec fn state_ok(&self, st: &SimState) -> bool {
        &&& st.values@.len() == self.model.signals@.len()
        &&& st.tasks@.len() == self.testbenches@.len()
        &&& forall|k: int| 0 <= k < st.staged@.len() ==> #[trigger] st.staged@[k].signal < self.model.signals@.len()
    }

    /// Advances a run by one unit of logical time: the staged writes land,
    /// the clocks that are due flip, the circuit settles, registers whose
    /// clocks rose load, the circuit settles again, and every testbench runs
    /// until it blocks or ends.
    pub fn advance(&self, st: &mut SimState) -> (r: Result<(), SimulationError>)
        requires
            self.wf(),
            self.state_ok(old(st)),
            old(st).time < u64::MAX,
        ensures
            r is Ok ==> self.next_instant(old(st).view()) == Ok::<SimView, SimulationError>(final(st).view())
                && self.state_ok(final(st)),
            r matches Err(e) ==> self.next_instant(old(st).view()) == Err::<SimView, SimulationError>(e)
                && final(st).view() == old(st).view(),
    {
        let t = st.time + 1;
        let v = match self.instant_exec(&st.values, &st.staged, t) {
            Err(e) => {
                return Err(e);
            },
            Ok(v) => v,
        };
        let (ts, staged) = match self.run_tasks_exec(&v, t, st.tasks.clone()) {
            Err(e) => {
                return Err(e);
            },
            Ok(x) => x,
        };
        let mut trace: Vec<Change> = Vec::new();
        core::mem::swap(&mut trace, &mut st.trace);
        push_changes(&st.values, &v, t, &mut trace);
        st.time = t;
        st.values = v;
        st.staged = staged;
        st.tasks = ts;
        st.trace = trace;
        Ok(())
    }

    /// Runs the circuit with its clocks and testbenches from time zero until
    /// every testbench has finished, one fails, settling fails, or `max_time`
    /// passes. Returns how it ended, with the last state reached: the values,
    /// the testbenches' states and the trace of value changes.
    pub fn run(&self, max_time: u64) -> (r: (Result<(), SimulationError>, SimState))
        requires
            self.wf(),
        ensures
            r.0 == self.run_spec(max_time).0,
            r.1.view() == self.run_spec(max_time).1,
    {
        let n = self.model.signals.len();
        let mut zeros: Vec<u64> = Vec::new();
        let mut fresh: Vec<TaskState> = Vec::new();
        let mut i: usize = 0;
        while i < n
            invariant
                n == self.model.signals@.len(),
                i <= n,
                zeros@ == Seq::new(i as nat, |j: int| 0u64),
            decreases n - i,
        {
            zeros.push(0);
            i = i + 1;
            proof {
                assert(zeros@ =~= Seq::new(i as nat, |j: int| 0u64));
            }
        }
        let mut i: usize = 0;
        while i < self.testbenches.len()
            invariant
                i <= self.testbenches@.len(),
                fresh@ == Seq::new(i as nat, |j: int| TaskState { pc: 0, armed: false, deadline: 0 }),
            decreases self.testbenches@.len() - i,
        {
            fresh.push(TaskState { pc: 0, armed: false, deadline: 0 });
            i = i + 1;
            proof {
                assert(fresh@ =~= Seq::new(i as nat, |j: int| TaskState { pc: 0, armed: false, deadline: 0 }));
            }
        }
        let v0 = match self.settle_at_exec(zeros.clone(), 0) {
            Err(e) => {
                return (Err(e), SimState { time: 0, values: zeros, staged: Vec::new(), tasks: fresh, trace: Vec::new() });
            },
            Ok(v) => v,
        };
        let (ts0, staged0) = match self.run_tasks_exec(&v0, 0, fresh.clone()) {
            Err(e) => {
                return (Err(e), SimState { time: 0, values: zeros, staged: Vec::new(), tasks: fresh, trace: Vec::new() });
            },
            Ok(x) => x,
        };
        let mut trace0: Vec<Change> = Vec::new();
        push_changes(&zeros, &v0, 0, &mut trace0);
        proof {
            assert(trace0@ =~= changes(zeros@, v0@, 0, v0@.len()));
        }
        let mut st = SimState { time: 0, values: v0, staged: staged0, tasks: ts0, trace: trace0 };
        let mut fuel: u64 = max_time;
        loop
            invariant
                self.wf(),
                self.state_ok(&st),
                self.run_spec(max_time) == self.run_from(st.view(), max_time, fuel as nat),
            decreases fuel,
        {
            if self.all_done_exec(&st.tasks) {
                return (Ok(()), st);
            }
            if st.time >= max_time || fuel == 0 {
                return (Err(SimulationError::MaxTimeExceeded { time: st.time }), st);
            }
            match self.advance(&mut st) {
                Err(e) => {
                    return (Err(e), st);
                },
                Ok(()) => {},
            }
            fuel = fuel - 1;
        }
    }
}

} // verus!
