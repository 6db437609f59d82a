use rust_hdl::bits::{modulus, truncate_to};
use rust_hdl::emit::{emit, EmitError};
use rust_hdl::expr::{eval_expr, Expr};
use rust_hdl::kernel::{commit_registers, ClockGen, Write};
use rust_hdl::model::{Behavior, Direction, Model};
use rust_hdl::settle::{settle, step_values, CombinationalCycleError};
use rust_hdl::testbench::{Action, Change, SimState, Simulation, SimulationError, Testbench};
use rust_hdl::text::to_decimal;
use rust_hdl::validate::{validate, ValidationError};

fn sig(i: usize) -> Expr {
    Expr::Sig(i)
}

fn k(v: u64) -> Expr {
    Expr::Const(v)
}

fn bx(e: Expr) -> Box<Expr> {
    Box::new(e)
}

fn eq(a: Expr, b: Expr) -> Expr {
    Expr::Eq(bx(a), bx(b))
}

fn add(a: Expr, b: Expr) -> Expr {
    Expr::Add(bx(a), bx(b))
}

fn not(a: Expr) -> Expr {
    Expr::Not(bx(a))
}

#[test]
fn modulus_and_truncation() {
    assert_eq!(modulus(0), 1);
    assert_eq!(modulus(8), 256);
    assert_eq!(modulus(64), 1u128 << 64);
    assert_eq!(truncate_to(0x1ff, 8), 0xff);
    assert_eq!(truncate_to(u64::MAX as u128 + 5, 64), 4);
}

#[test]
fn decimal_rendering() {
    assert_eq!(to_decimal(0), "0");
    assert_eq!(to_decimal(7), "7");
    assert_eq!(to_decimal(1234567890), "1234567890");
    assert_eq!(to_decimal(u64::MAX), "18446744073709551615");
}

#[test]
fn expressions_evaluate_modulo_width() {
    let v = vec![200u64, 100, 1, 0xf0];
    assert_eq!(eval_expr(&add(sig(0), sig(1)), &v, 8), 44);
    assert_eq!(eval_expr(&add(sig(0), sig(1)), &v, 64), 300);
    assert_eq!(eval_expr(&Expr::Sub(bx(sig(1)), bx(sig(0))), &v, 8), 156);
    assert_eq!(eval_expr(&not(sig(2)), &v, 1), 0);
    assert_eq!(eval_expr(&not(k(0)), &v, 4), 15);
    assert_eq!(eval_expr(&Expr::And(bx(sig(3)), bx(k(0x3c))), &v, 8), 0x30);
    assert_eq!(eval_expr(&Expr::Or(bx(sig(3)), bx(k(0x0f))), &v, 8), 0xff);
    assert_eq!(eval_expr(&Expr::Xor(bx(sig(3)), bx(k(0xff))), &v, 8), 0x0f);
    assert_eq!(eval_expr(&eq(sig(2), k(1)), &v, 64), 1);
    assert_eq!(eval_expr(&eq(sig(2), k(2)), &v, 64), 0);
    assert_eq!(eval_expr(&Expr::Mux(bx(sig(2)), bx(k(5)), bx(k(6))), &v, 8), 5);
    assert_eq!(eval_expr(&Expr::Shl(bx(sig(3)), bx(k(4))), &v, 8), 0);
    assert_eq!(eval_expr(&Expr::Shl(bx(sig(3)), bx(k(4))), &v, 16), 0xf00);
    assert_eq!(eval_expr(&Expr::Shr(bx(sig(3)), bx(k(4))), &v, 8), 0x0f);
    assert_eq!(eval_expr(&Expr::Shr(bx(sig(3)), bx(k(99))), &v, 64), 0);
}

/// A root with one 8-bit input `a` and the chain `b = a + 1`, `c = b + 1`.
fn chain(reversed: bool) -> (Model, usize, usize, usize) {
    let mut m = Model::new("top".to_string());
    let a = m.add_signal(0, "a".to_string(), Direction::In, 8);
    let b = m.add_signal(0, "b".to_string(), Direction::Local, 8);
    let c = m.add_signal(0, "c".to_string(), Direction::Out, 8);
    if reversed {
        m.assign(0, c, add(sig(b), k(1)));
        m.assign(0, b, add(sig(a), k(1)));
    } else {
        m.assign(0, b, add(sig(a), k(1)));
        m.assign(0, c, add(sig(b), k(1)));
    }
    (m, a, b, c)
}

#[test]
fn acyclic_chain_settles_in_any_order() {
    let (m1, a, b, c) = chain(false);
    let (m2, _, _, _) = chain(true);
    let mut v1 = vec![0u64; 3];
    v1[a] = 254;
    let mut v2 = v1.clone();
    assert_eq!(settle(&m1, &mut v1), Ok(()));
    assert_eq!(settle(&m2, &mut v2), Ok(()));
    assert_eq!(v1[b], 255);
    assert_eq!(v1[c], 0);
    assert_eq!(v1, v2);
    assert_eq!(step_values(&m1, &v1), v1);
}

#[test]
fn oscillating_loop_is_a_cycle_error() {
    let mut m = Model::new("top".to_string());
    let x = m.add_signal(0, "x".to_string(), Direction::Local, 1);
    m.assign(0, x, not(sig(x)));
    let mut v = vec![0u64];
    assert_eq!(settle(&m, &mut v), Err(CombinationalCycleError { signal: x }));
    assert!(v[0] <= 1);
}

#[test]
fn stable_self_loop_settles() {
    let mut m = Model::new("top".to_string());
    let x = m.add_signal(0, "x".to_string(), Direction::Local, 4);
    m.assign(0, x, sig(x));
    let mut v = vec![9u64];
    assert_eq!(settle(&m, &mut v), Ok(()));
    assert_eq!(v, vec![9]);
    // Settling alone cannot see the loop; the structural check does.
    assert_eq!(validate(&m), Err(ValidationError::CombinationalLoop { signal: x }));
}

#[test]
fn registers_on_one_edge_read_pre_edge_values() {
    let mut m = Model::new("top".to_string());
    let clk = m.add_signal(0, "clk".to_string(), Direction::In, 1);
    let p = m.add_signal(0, "p".to_string(), Direction::Local, 8);
    let q = m.add_signal(0, "q".to_string(), Direction::Local, 8);
    m.add_register(0, clk, q, p);
    m.add_register(0, clk, p, q);
    let before = vec![0u64, 3, 7];
    let rising = vec![1u64, 3, 7];
    assert_eq!(commit_registers(&m, &before, &rising), vec![1, 7, 3]);
    // No edge: nothing loads.
    assert_eq!(commit_registers(&m, &rising, &rising), rising);
}

#[test]
fn link_and_join_wire_alike() {
    let build = |use_link: bool| {
        let mut m = Model::new("top".to_string());
        let a = m.add_component(0, "a".to_string(), Behavior::Composite);
        let b = m.add_component(0, "b".to_string(), Behavior::Composite);
        let src = m.add_signal(a, "data".to_string(), Direction::Out, 8);
        let dst = m.add_signal(b, "data".to_string(), Direction::In, 8);
        m.assign(a, src, k(0x5a));
        if use_link {
            m.link(0, &vec![src], &vec![dst]);
        } else {
            m.join(0, &vec![src], &vec![dst]);
        }
        let mut v = vec![0u64; 2];
        assert_eq!(settle(&m, &mut v), Ok(()));
        (v[dst], m.assigns.len())
    };
    assert_eq!(build(true), (0x5a, 2));
    assert_eq!(build(false), (0x5a, 2));
}

#[test]
fn validation_reports_dangling_and_doubled_signals() {
    let mut m = Model::new("top".to_string());
    let child = m.add_component(0, "child".to_string(), Behavior::Composite);
    let top_in = m.add_signal(0, "i".to_string(), Direction::In, 1);
    let port = m.add_signal(child, "p".to_string(), Direction::In, 1);
    assert_eq!(validate(&m), Err(ValidationError::DanglingPort { signal: port }));
    m.assign(0, port, sig(top_in));
    assert_eq!(validate(&m), Ok(()));
    m.assign(0, port, k(1));
    assert_eq!(validate(&m), Err(ValidationError::MultipleDriver { signal: port }));
    let mut m2 = Model::new("top".to_string());
    let x = m2.add_signal(0, "x".to_string(), Direction::In, 1);
    m2.assign(0, x, k(0));
    assert_eq!(validate(&m2), Err(ValidationError::MultipleDriver { signal: x }));
}

/// An 8-bit counter that increments on every rising edge of `clock`.
fn counter() -> (Model, usize, usize) {
    let mut m = Model::new("counter".to_string());
    let clock = m.add_signal(0, "clock".to_string(), Direction::In, 1);
    let count = m.add_signal(0, "count".to_string(), Direction::Out, 8);
    let next = m.add_signal(0, "count_next".to_string(), Direction::Local, 8);
    m.assign(0, next, add(sig(count), k(1)));
    m.add_register(0, clock, next, count);
    (m, clock, count)
}

#[test]
fn counter_simulation_and_netlist_agree() {
    let (m, clock, count) = counter();
    let text = emit(&m).unwrap();
    assert!(text.contains("module counter(clock, count);"));
    assert!(text.contains("    output logic [7:0] count;\n"));
    assert!(text.contains("    assign count_next = (64'(count) + 64'd1);\n"));
    assert!(text.contains("    always_ff @(posedge clock) count <= count_next;\n"));
    let mut sim = Simulation::new(m);
    sim.add_clock(5, clock);
    let mut tb = Testbench::new();
    tb.push(Action::Wait(3000));
    sim.add_testbench(tb);
    let (result, state) = sim.run(10_000);
    assert_eq!(result, Ok(()));
    assert_eq!(state.time, 3000);
    // 300 rising edges, at 5, 15, ..., 2995: the count after edge n is n mod 256.
    let edges: Vec<&Change> = state.trace.iter().filter(|c| c.signal == count).collect();
    assert_eq!(edges.len(), 300);
    for (n, c) in edges.iter().enumerate() {
        assert_eq!(c.time, 5 + 10 * n as u64);
        assert_eq!(c.value, ((n + 1) % 256) as u64);
    }
    assert_eq!(state.values[count], 300 % 256);
}

#[test]
fn runs_are_deterministic() {
    let run = || {
        let (m, clock, _) = counter();
        let mut sim = Simulation::new(m);
        sim.add_clock(5, clock);
        let mut tb = Testbench::new();
        tb.push(Action::Wait(500));
        sim.add_testbench(tb);
        let (r, st) = sim.run(1000);
        (r, st.values, st.trace)
    };
    assert_eq!(run(), run());
}

#[test]
fn watcher_sees_a_write_one_step_later() {
    let mut m = Model::new("top".to_string());
    let x = m.add_signal(0, "x".to_string(), Direction::In, 8);
    let seen = m.add_signal(0, "seen".to_string(), Direction::In, 1);
    let mut sim = Simulation::new(m);
    let mut setter = Testbench::new();
    setter.push(Action::Wait(7));
    setter.push(Action::Drive(x, 0x45));
    setter.push(Action::Wait(10));
    sim.add_testbench(setter);
    let mut watcher = Testbench::new();
    watcher.push(Action::Watch(eq(sig(x), k(0x45)), 1000));
    watcher.push(Action::Drive(seen, 1));
    sim.add_testbench(watcher);
    let (result, state) = sim.run(100);
    assert_eq!(result, Ok(()));
    // The write staged at time 7 lands at 8; the watcher unblocks at 8, so its
    // own write lands at 9.
    assert_eq!(
        state.trace,
        vec![
            Change { time: 8, signal: x, value: 0x45 },
            Change { time: 9, signal: seen, value: 1 },
        ]
    );
}

#[test]
fn watch_times_out() {
    let mut m = Model::new("top".to_string());
    let x = m.add_signal(0, "x".to_string(), Direction::In, 1);
    let mut sim = Simulation::new(m);
    let mut tb = Testbench::new();
    tb.push(Action::Watch(eq(sig(x), k(1)), 1000));
    sim.add_testbench(tb);
    let (result, state) = sim.run(1_000_000);
    assert_eq!(result, Err(SimulationError::WatchTimeout { task: 0, time: 1000 }));
    assert_eq!(state.time, 999);
}

#[test]
fn failed_check_and_time_bound() {
    let mut m = Model::new("top".to_string());
    let x = m.add_signal(0, "x".to_string(), Direction::In, 1);
    let mut sim = Simulation::new(m);
    let mut tb = Testbench::new();
    tb.push(Action::Wait(3));
    tb.push(Action::Check(eq(sig(x), k(1))));
    sim.add_testbench(tb);
    assert_eq!(sim.run(100).0, Err(SimulationError::AssertionFailed { task: 0, time: 3 }));
    assert_eq!(sim.run(2).0, Err(SimulationError::MaxTimeExceeded { time: 2 }));
}

#[test]
fn cycle_stops_a_run() {
    let mut m = Model::new("top".to_string());
    let x = m.add_signal(0, "x".to_string(), Direction::Local, 1);
    m.assign(0, x, not(sig(x)));
    let sim = Simulation::new(m);
    let (result, state) = sim.run(10);
    assert_eq!(result, Err(SimulationError::CombinationalCycle { time: 0, signal: x }));
    assert_eq!(state.values, vec![0]);
}

#[test]
fn clocks_toggle_at_their_half_period() {
    let mut m = Model::new("top".to_string());
    let clk = m.add_signal(0, "clk".to_string(), Direction::In, 1);
    let mut sim = Simulation::new(m);
    sim.add_clock(3, clk);
    assert_eq!(sim.clocks, vec![ClockGen { signal: clk, half_period: 3 }]);
    let mut tb = Testbench::new();
    tb.push(Action::Wait(9));
    sim.add_testbench(tb);
    let (_, state) = sim.run(100);
    let times: Vec<(u64, u64)> = state.trace.iter().map(|c| (c.time, c.value)).collect();
    assert_eq!(times, vec![(3, 1), (6, 0), (9, 1)]);
}

#[test]
fn emit_reports_invalid_and_out_of_scope_models() {
    let mut m = Model::new("top".to_string());
    let child = m.add_component(0, "child".to_string(), Behavior::Composite);
    let port = m.add_signal(child, "p".to_string(), Direction::In, 1);
    assert_eq!(emit(&m), Err(EmitError::Invalid(ValidationError::DanglingPort { signal: port })));
    let grandchild = m.add_component(child, "inner".to_string(), Behavior::Composite);
    let deep = m.add_signal(grandchild, "q".to_string(), Direction::Out, 1);
    m.assign(0, port, sig(deep));
    assert_eq!(emit(&m), Err(EmitError::OutOfScope { component: 0 }));
}

#[test]
fn emit_instantiates_children() {
    let mut m = Model::new("top".to_string());
    let a = m.add_signal(0, "a".to_string(), Direction::In, 4);
    let child = m.add_component(0, "inv".to_string(), Behavior::Composite);
    let i = m.add_signal(child, "i".to_string(), Direction::In, 4);
    let o = m.add_signal(child, "o".to_string(), Direction::Out, 4);
    m.assign(child, o, not(sig(i)));
    m.assign(0, i, sig(a));
    let text = emit(&m).unwrap();
    assert_eq!(
        text,
        "\nmodule top(a);\n    input logic [3:0] a;\n    logic [3:0] inv$i;\n    logic [3:0] inv$o;\n    inv inv_inst(.i(inv$i), .o(inv$o));\n    assign inv$i = 64'(a);\nendmodule\n\nmodule inv(i, o);\n    input logic [3:0] i;\n    output logic [3:0] o;\n    assign o = ~(64'(i));\nendmodule\n"
    );
}

#[test]
fn signal_paths_name_the_hierarchy() {
    let mut m = Model::new("top".to_string());
    let child = m.add_component(0, "child".to_string(), Behavior::Composite);
    let leaf = m.add_component(child, "leaf".to_string(), Behavior::Composite);
    let x = m.add_signal(leaf, "x".to_string(), Direction::In, 1);
    let y = m.add_signal(0, "y".to_string(), Direction::Local, 1);
    assert_eq!(m.path_of(x), "top.child.leaf.x");
    assert_eq!(m.path_of(y), "top.y");
}

#[test]
fn advance_lands_writes_and_commits_edges() {
    let (mut m, clock, count) = counter();
    let x = m.add_signal(0, "x".to_string(), Direction::In, 8);
    let mut sim = Simulation::new(m);
    sim.add_clock(1, clock);
    let mut st = SimState {
        time: 0,
        values: vec![0; 4],
        staged: vec![Write { signal: x, value: 0x1ff }],
        tasks: vec![],
        trace: vec![],
    };
    assert_eq!(sim.advance(&mut st), Ok(()));
    assert_eq!(st.time, 1);
    assert_eq!(st.values[clock], 1);
    assert_eq!(st.values[count], 1);
    assert_eq!(st.values[x], 0xff);
    assert!(st.staged.is_empty());
    assert_eq!(sim.advance(&mut st), Ok(()));
    assert_eq!((st.values[clock], st.values[count]), (0, 1));
    assert_eq!(sim.advance(&mut st), Ok(()));
    assert_eq!((st.values[clock], st.values[count]), (1, 2));
}

#[test]
fn copied_expressions_evaluate_alike() {
    let e = Expr::Mux(bx(eq(sig(0), k(3))), bx(add(sig(1), k(1))), bx(not(sig(1))));
    let c = e.copy();
    for v in [vec![3u64, 9], vec![2, 9], vec![3, 255]] {
        assert_eq!(eval_expr(&c, &v, 8), eval_expr(&e, &v, 8));
    }
    assert_eq!(eval_expr(&c, &vec![3, 9], 8), 10);
    assert_eq!(eval_expr(&c, &vec![2, 9], 8), 246);
}

#[test]
fn loops_through_several_signals_are_rejected() {
    let mut m = Model::new("top".to_string());
    let a = m.add_signal(0, "a".to_string(), Direction::In, 8);
    let b = m.add_signal(0, "b".to_string(), Direction::Local, 8);
    let c = m.add_signal(0, "c".to_string(), Direction::Local, 8);
    let d = m.add_signal(0, "d".to_string(), Direction::Local, 8);
    m.assign(0, b, add(sig(a), sig(d)));
    m.assign(0, c, add(sig(b), k(1)));
    m.assign(0, d, sig(c));
    assert_eq!(validate(&m), Err(ValidationError::CombinationalLoop { signal: b }));
    assert_eq!(emit(&m), Err(EmitError::Invalid(ValidationError::CombinationalLoop { signal: b })));
    let (chain_model, _, _, _) = chain(false);
    assert_eq!(validate(&chain_model), Ok(()));
}

#[test]
fn netlist_widens_operands_like_the_simulator() {
    let mut m = Model::new("top".to_string());
    let a = m.add_signal(0, "a".to_string(), Direction::In, 8);
    let b = m.add_signal(0, "b".to_string(), Direction::In, 8);
    let y = m.add_signal(0, "y".to_string(), Direction::Out, 1);
    m.assign(0, y, eq(add(sig(a), sig(b)), k(0)));
    let mut v = vec![255u64, 1, 0];
    assert_eq!(settle(&m, &mut v), Ok(()));
    assert_eq!(v[y], 0);
    assert!(emit(&m).unwrap().contains("    assign y = ((64'(a) + 64'(b)) == 64'd0);\n"));
}
