use rust_hdl::expr::Expr;
use rust_hdl::model::{Behavior, Direction, Model};
use rust_hdl::testbench::{Action, Simulation, Testbench};

#[derive(Clone, Copy)]
struct SPIConfig {
    clock_speed: u64,
    cs_off: bool,
    mosi_off: bool,
    speed_hz: u64,
    cpha: bool,
    cpol: bool,
}

fn sig(i: usize) -> Expr {
    Expr::Sig(i)
}

fn k(v: u64) -> Expr {
    Expr::Const(v)
}

fn eq(a: Expr, b: Expr) -> Expr {
    Expr::Eq(Box::new(a), Box::new(b))
}

fn and(a: Expr, b: Expr) -> Expr {
    Expr::And(Box::new(a), Box::new(b))
}

fn or(a: Expr, b: Expr) -> Expr {
    Expr::Or(Box::new(a), Box::new(b))
}

fn add(a: Expr, b: Expr) -> Expr {
    Expr::Add(Box::new(a), Box::new(b))
}

fn sub(a: Expr, b: Expr) -> Expr {
    Expr::Sub(Box::new(a), Box::new(b))
}

fn shl(a: Expr, b: Expr) -> Expr {
    Expr::Shl(Box::new(a), Box::new(b))
}

fn shr(a: Expr, b: Expr) -> Expr {
    Expr::Shr(Box::new(a), Box::new(b))
}

fn mux(s: Expr, a: Expr, b: Expr) -> Expr {
    Expr::Mux(Box::new(s), Box::new(a), Box::new(b))
}

fn b(x: bool) -> u64 {
    if x {
        1
    } else {
        0
    }
}

struct Master {
    clock: usize,
    start_send: usize,
    data_outbound: usize,
    bits_outbound: usize,
    continued_transaction: usize,
    transfer_done: usize,
    data_inbound: usize,
    mosi: usize,
    mclk: usize,
    msel: usize,
    miso: usize,
}

struct Slave {
    clock: usize,
    start_send: usize,
    data_outbound: usize,
    bits: usize,
    continued_transaction: usize,
    disabled: usize,
    transfer_done: usize,
    data_inbound: usize,
    mosi: usize,
    mclk: usize,
    msel: usize,
    miso: usize,
}

fn reg(m: &mut Model, c: usize, clock: usize, name: &str, width: u32, next: Expr) -> usize {
    let q = m.add_signal(c, name.to_string(), Direction::Local, width);
    let d = m.add_signal(c, format!("{}_next", name), Direction::Local, width);
    m.assign(c, d, next);
    m.add_register(c, clock, d, q);
    q
}

fn add_master(m: &mut Model, parent: usize, cfg: SPIConfig) -> Master {
    let c = m.add_component(parent, "master".to_string(), Behavior::Composite);
    let clock = m.add_signal(c, "clock".to_string(), Direction::In, 1);
    let start_send = m.add_signal(c, "start_send".to_string(), Direction::In, 1);
    let data_outbound = m.add_signal(c, "data_outbound".to_string(), Direction::In, 64);
    let bits_outbound = m.add_signal(c, "bits_outbound".to_string(), Direction::In, 8);
    let continued_transaction = m.add_signal(c, "continued_transaction".to_string(), Direction::In, 1);
    let transfer_done = m.add_signal(c, "transfer_done".to_string(), Direction::Out, 1);
    let data_inbound = m.add_signal(c, "data_inbound".to_string(), Direction::Out, 64);
    let mosi = m.add_signal(c, "mosi".to_string(), Direction::Out, 1);
    let mclk = m.add_signal(c, "mclk".to_string(), Direction::Out, 1);
    let msel = m.add_signal(c, "msel".to_string(), Direction::Out, 1);
    let miso = m.add_signal(c, "miso".to_string(), Direction::In, 1);
    // The registers are declared first, so that their outputs can be read.
    let n = m.signals.len();
    let state = n;
    let tx = n + 2;
    let rx = n + 4;
    let cnt = n + 6;
    let sample_state = if cfg.cpha { 2 } else { 1 };
    let load = || and(eq(sig(state), k(0)), sig(start_send));
    let sampling = || eq(sig(state), k(sample_state));
    let last_bit = if cfg.cpha { eq(sig(cnt), k(1)) } else { eq(sig(cnt), k(0)) };
    let state_next = mux(
        eq(sig(state), k(0)),
        mux(sig(start_send), k(1), k(0)),
        mux(
            eq(sig(state), k(1)),
            k(2),
            mux(eq(sig(state), k(2)), mux(last_bit, k(3), k(1)), k(0)),
        ),
    );
    assert_eq!(reg(m, c, clock, "state", 2, state_next), state);
    assert_eq!(reg(m, c, clock, "tx", 64, mux(load(), sig(data_outbound), sig(tx))), tx);
    let rx_next = mux(load(), k(0), mux(sampling(), add(shl(sig(rx), k(1)), sig(miso)), sig(rx)));
    assert_eq!(reg(m, c, clock, "rx", 64, rx_next), rx);
    let cnt_next = mux(load(), sig(bits_outbound), mux(sampling(), sub(sig(cnt), k(1)), sig(cnt)));
    assert_eq!(reg(m, c, clock, "cnt", 8, cnt_next), cnt);
    m.assign(c, mosi, and(shr(sig(tx), sub(sig(cnt), k(1))), k(1)));
    m.assign(c, mclk, mux(eq(sig(state), k(1)), k(b(!cfg.cpol)), k(b(cfg.cpol))));
    m.assign(
        c,
        msel,
        mux(or(eq(sig(state), k(1)), eq(sig(state), k(2))), k(b(!cfg.cs_off)), k(b(cfg.cs_off))),
    );
    m.assign(c, transfer_done, eq(sig(state), k(3)));
    m.assign(c, data_inbound, sig(rx));
    Master {
        clock,
        start_send,
        data_outbound,
        bits_outbound,
        continued_transaction,
        transfer_done,
        data_inbound,
        mosi,
        mclk,
        msel,
        miso,
    }
}

fn add_slave(m: &mut Model, parent: usize, cfg: SPIConfig) -> Slave {
    let c = m.add_component(parent, "slave".to_string(), Behavior::Composite);
    let clock = m.add_signal(c, "clock".to_string(), Direction::In, 1);
    let start_send = m.add_signal(c, "start_send".to_string(), Direction::In, 1);
    let data_outbound = m.add_signal(c, "data_outbound".to_string(), Direction::In, 64);
    let bits = m.add_signal(c, "bits".to_string(), Direction::In, 8);
    let continued_transaction = m.add_signal(c, "continued_transaction".to_string(), Direction::In, 1);
    let disabled = m.add_signal(c, "disabled".to_string(), Direction::In, 1);
    let transfer_done = m.add_signal(c, "transfer_done".to_string(), Direction::Out, 1);
    let data_inbound = m.add_signal(c, "data_inbound".to_string(), Direction::Out, 64);
    let miso = m.add_signal(c, "miso".to_string(), Direction::Out, 1);
    let mosi = m.add_signal(c, "mosi".to_string(), Direction::In, 1);
    let mclk = m.add_signal(c, "mclk".to_string(), Direction::In, 1);
    let msel = m.add_signal(c, "msel".to_string(), Direction::In, 1);
    let n = m.signals.len();
    let state = n;
    let tx = n + 2;
    let rx = n + 4;
    let cnt = n + 6;
    let last = n + 8;
    let active = b(!cfg.cpol);
    let idle = b(cfg.cpol);
    let edge = || {
        if cfg.cpha {
            and(eq(sig(mclk), k(idle)), eq(sig(last), k(active)))
        } else {
            and(eq(sig(mclk), k(active)), eq(sig(last), k(idle)))
        }
    };
    let selected = || eq(sig(msel), k(b(!cfg.cs_off)));
    let sample = || and(and(eq(sig(state), k(1)), selected()), edge());
    let load = || and(and(eq(sig(state), k(0)), sig(start_send)), eq(sig(disabled), k(0)));
    let state_next = mux(
        eq(sig(state), k(0)),
        mux(load(), k(1), k(0)),
        mux(eq(sig(state), k(1)), mux(and(sample(), eq(sig(cnt), k(1))), k(2), k(1)), k(0)),
    );
    assert_eq!(reg(m, c, clock, "state", 2, state_next), state);
    assert_eq!(reg(m, c, clock, "tx", 64, mux(load(), sig(data_outbound), sig(tx))), tx);
    let rx_next = mux(load(), k(0), mux(sample(), add(shl(sig(rx), k(1)), sig(mosi)), sig(rx)));
    assert_eq!(reg(m, c, clock, "rx", 64, rx_next), rx);
    let cnt_next = mux(load(), sig(bits), mux(sample(), sub(sig(cnt), k(1)), sig(cnt)));
    assert_eq!(reg(m, c, clock, "cnt", 8, cnt_next), cnt);
    assert_eq!(reg(m, c, clock, "last_mclk", 1, sig(mclk)), last);
    m.assign(c, miso, and(shr(sig(tx), sub(sig(cnt), k(1))), k(1)));
    m.assign(c, transfer_done, eq(sig(state), k(2)));
    m.assign(c, data_inbound, sig(rx));
    Slave {
        clock,
        start_send,
        data_outbound,
        bits,
        continued_transaction,
        disabled,
        transfer_done,
        data_inbound,
        mosi,
        mclk,
        msel,
        miso,
    }
}

fn mk_spi_config(flags: [bool; 3]) -> SPIConfig {
    SPIConfig {
        clock_speed: 48_000_000,
        cs_off: flags[0],
        mosi_off: false,
        speed_hz: 1_000_000,
        cpha: flags[1],
        cpol: flags[2],
    }
}

fn wait_clock_true(tb: &mut Testbench, clock: usize) {
    tb.push(Action::Watch(eq(sig(clock), k(1)), 1_000_000));
}

fn wait_clock_cycle(tb: &mut Testbench, clock: usize) {
    tb.push(Action::Watch(eq(sig(clock), k(0)), 1_000_000));
    tb.push(Action::Watch(eq(sig(clock), k(1)), 1_000_000));
}

fn test_spi_xchange(config: SPIConfig, name: &str) {
    assert!(config.clock_speed > config.speed_hz && !config.mosi_off);
    let mut m = Model::new(format!("spi_{}", name));
    let top = 0;
    let clock = m.add_signal(top, "clock".to_string(), Direction::In, 1);
    let master = add_master(&mut m, top, config);
    let slave = add_slave(&mut m, top, config);
    // The inputs that the testbenches drive.
    let mut inputs = vec![];
    for (port, width) in [
        (master.start_send, 1),
        (master.data_outbound, 64),
        (master.bits_outbound, 8),
        (master.continued_transaction, 1),
        (slave.start_send, 1),
        (slave.data_outbound, 64),
        (slave.bits, 8),
        (slave.continued_transaction, 1),
        (slave.disabled, 1),
    ] {
        let s = m.add_signal(top, format!("in_{}", port), Direction::In, width);
        m.assign(top, port, sig(s));
        inputs.push(s);
    }
    m.assign(top, master.clock, sig(clock));
    m.assign(top, slave.clock, sig(clock));
    m.join(
        top,
        &vec![master.mosi, master.mclk, master.msel, master.miso],
        &vec![slave.mosi, slave.mclk, slave.msel, slave.miso],
    );
    assert_eq!(rust_hdl::validate::validate(&m), Ok(()));
    assert!(rust_hdl::emit::emit(&m).is_ok());
    let (m_start, m_data, m_bits) = (inputs[0], inputs[1], inputs[2]);
    let (s_start, s_data, s_bits) = (inputs[4], inputs[5], inputs[6]);

    let mut sim = Simulation::new(m);
    sim.add_clock(5, clock);

    let mut tb = Testbench::new();
    for _ in 0..16 {
        wait_clock_cycle(&mut tb, clock);
    }
    for _ in 0..4 {
        wait_clock_true(&mut tb, clock);
        tb.push(Action::Drive(m_data, 0xDEADBEEF));
        tb.push(Action::Drive(m_bits, 32));
        tb.push(Action::Drive(m_start, 1));
        wait_clock_cycle(&mut tb, clock);
        tb.push(Action::Drive(m_start, 0));
        tb.push(Action::Watch(eq(sig(master.transfer_done), k(1)), 1_000_000));
        tb.push(Action::Check(eq(sig(master.data_inbound), k(0xCAFEBABE))));
        wait_clock_cycle(&mut tb, clock);
    }
    sim.add_testbench(tb);

    let mut tb = Testbench::new();
    for _ in 0..16 {
        wait_clock_cycle(&mut tb, clock);
    }
    for _ in 0..4 {
        wait_clock_true(&mut tb, clock);
        tb.push(Action::Drive(s_data, 0xCAFEBABE));
        tb.push(Action::Drive(s_bits, 32));
        tb.push(Action::Drive(s_start, 1));
        wait_clock_cycle(&mut tb, clock);
        tb.push(Action::Watch(eq(sig(slave.transfer_done), k(1)), 1_000_000));
        tb.push(Action::Check(eq(sig(slave.data_inbound), k(0xDEADBEEF))));
        tb.push(Action::Check(eq(sig(s_bits), k(32))));
    }
    sim.add_testbench(tb);

    let (result, state) = sim.run(1_000_000);
    assert_eq!(result, Ok(()));
    assert!(state.time > 0);
}

#[test]
fn test_spi_xchange_mode_000() {
    test_spi_xchange(mk_spi_config([false, false, false]), "000");
}

#[test]
fn test_spi_xchange_mode_001() {
    test_spi_xchange(mk_spi_config([false, false, true]), "001");
}

#[test]
fn test_spi_xchange_mode_010() {
    test_spi_xchange(mk_spi_config([false, true, false]), "010");
}

#[test]
fn test_spi_xchange_mode_011() {
    test_spi_xchange(mk_spi_config([false, true, true]), "011");
}

#[test]
fn test_spi_xchange_mode_100() {
    test_spi_xchange(mk_spi_config([true, false, false]), "100");
}

#[test]
fn test_spi_xchange_mode_101() {
    test_spi_xchange(mk_spi_config([true, false, true]), "101");
}

#[test]
fn test_spi_xchange_mode_110() {
    test_spi_xchange(mk_spi_config([true, true, false]), "110");
}

#[test]
fn test_spi_xchange_mode_111() {
    test_spi_xchange(mk_spi_config([true, true, true]), "111");
}

#[test]
fn test_spi_txn_completes() {
    let config = SPIConfig {
        clock_speed: 100_000_000,
        cs_off: false,
        mosi_off: false,
        speed_hz: 2500000,
        cpha: false,
        cpol: false,
    };
    assert!(config.clock_speed > config.speed_hz && !config.mosi_off);
    let mut m = Model::new("spi_0".to_string());
    let top = 0;
    let clock = m.add_signal(top, "clock".to_string(), Direction::In, 1);
    let mosi = m.add_signal(top, "mosi".to_string(), Direction::Out, 1);
    let mclk = m.add_signal(top, "mclk".to_string(), Direction::Out, 1);
    let msel = m.add_signal(top, "msel".to_string(), Direction::Out, 1);
    let miso = m.add_signal(top, "miso".to_string(), Direction::In, 1);
    let master = add_master(&mut m, top, config);
    m.link(
        top,
        &vec![mosi, mclk, msel, miso],
        &vec![master.mosi, master.mclk, master.msel, master.miso],
    );
    m.assign(top, master.clock, sig(clock));
    let mut inputs = vec![];
    for (port, width) in [
        (master.start_send, 1),
        (master.data_outbound, 64),
        (master.bits_outbound, 8),
        (master.continued_transaction, 1),
    ] {
        let s = m.add_signal(top, format!("in_{}", port), Direction::In, width);
        m.assign(top, port, sig(s));
        inputs.push(s);
    }
    assert_eq!(rust_hdl::validate::validate(&m), Ok(()));
    assert!(rust_hdl::emit::emit(&m).is_ok());
    let mut sim = Simulation::new(m);
    sim.add_clock(5, clock);
    let mut tb = Testbench::new();
    for _ in 0..4 {
        wait_clock_cycle(&mut tb, clock);
    }
    wait_clock_true(&mut tb, clock);
    tb.push(Action::Drive(inputs[1], 0xDEADBEEF));
    tb.push(Action::Drive(inputs[2], 32));
    tb.push(Action::Drive(inputs[0], 1));
    wait_clock_cycle(&mut tb, clock);
    tb.push(Action::Drive(inputs[0], 0));
    tb.push(Action::Watch(eq(sig(master.transfer_done), k(1)), 100_000));
    wait_clock_cycle(&mut tb, clock);
    sim.add_testbench(tb);
    let (result, state) = sim.run(100_000);
    assert_eq!(result, Ok(()));
    // The bus carried the word, most significant bit first, on the rising
    // edges of the serial clock.
    let mut word = 0u64;
    let mut bits = 0;
    let mut last_mclk = 0;
    let mut mosi_now = 0;
    for c in &state.trace {
        if c.signal == mosi {
            mosi_now = c.value;
        }
        if c.signal == mclk {
            if last_mclk == 0 && c.value == 1 {
                word = word * 2 + mosi_now;
                bits += 1;
            }
            last_mclk = c.value;
        }
    }
    assert_eq!((word, bits), (0xDEADBEEF, 32));
}
