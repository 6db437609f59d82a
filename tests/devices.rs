use rust_hdl::ecp5::{wrapper_multiple, wrapper_once, EdgeTristateBuffer, IODelays};
use rust_hdl::emit::emit;
use rust_hdl::expr::Expr;
use rust_hdl::model::{Behavior, Direction, Model};
use rust_hdl::sdram_fifo::{MemoryTimings, OutputBuffer, SDRAMFIFO};
use rust_hdl::testbench::{Action, Simulation, Testbench};
use rust_hdl::validate::validate;

#[test]
fn io_delays_keep_fields() {
    let d = IODelays { to_pin: 25, from_pin: 40 };
    assert_eq!(d.to_pin, 25);
    assert_eq!(d.from_pin, 40);
    assert_eq!(IODelays::default(), IODelays { to_pin: 0, from_pin: 0 });
}

#[test]
fn one_bit_wrapper_carries_delays() {
    let text = wrapper_once(IODelays { to_pin: 25, from_pin: 40 });
    assert!(text.starts_with("\n    wire bb_to_pin_a;\n"));
    assert!(text.contains("    defparam dg_to_pin.DEL_VALUE = 25;\n"));
    assert!(text.contains("    defparam dg_from_pin.DEL_VALUE = 40;\n"));
    assert!(text.contains("    DELAYG dg_to_pin(.A(bb_to_pin_a),.Z(bb_to_pin_z));\n"));
    assert!(text.contains("    DELAYG dg_from_pin(.A(bb_from_pin_a),.Z(bb_from_pin_z));\n"));
    assert!(!text.contains("dg."));
    assert!(text.contains("BB bb(.I(bb_to_pin_z), .O(bb_from_pin_a), .B(pin), .T(~output_enable));"));
}

#[test]
fn multi_bit_wrapper_has_a_block_per_bit() {
    let text = wrapper_multiple(3, IODelays { to_pin: 1, from_pin: 2 });
    assert!(text.starts_with("\nwire [2:0] bb_to_pin_a;\nwire [2:0] bb_to_pin_z;\nwire [2:0] bb_from_pin_a;\nwire [2:0] bb_from_pin_z;\n"));
    for x in 0..3 {
        assert!(text.contains(&format!("OFS1P3DX obuf_{x}(.D(to_pin[{x}])")));
        assert!(text.contains(&format!("defparam dg_to_pin_{x}.DEL_VALUE = 1;")));
        assert!(text.contains(&format!("defparam dg_from_pin_{x}.DEL_VALUE = 2;")));
    }
    assert!(!text.contains("obuf_3"));
    assert_eq!(text.matches("\n\n    OFS1P3DX").count(), 3);
}

fn synthesize_edge_buffer(buffer: EdgeTristateBuffer<8>) -> String {
    let mut m = Model::new("top".to_string());
    let ports = buffer.build(&mut m, 0, "edge_tristate_buffer".to_string());
    let to_pin = m.add_signal(0, "to_pin".to_string(), Direction::In, 8);
    let output_enable = m.add_signal(0, "output_enable".to_string(), Direction::In, 1);
    let clk = m.add_signal(0, "clk".to_string(), Direction::In, 1);
    let pad = m.add_signal(0, "pad".to_string(), Direction::In, 8);
    m.assign(0, ports.to_pin, Expr::Sig(to_pin));
    m.assign(0, ports.output_enable, Expr::Sig(output_enable));
    m.assign(0, ports.clk, Expr::Sig(clk));
    m.assign(0, ports.pad, Expr::Sig(pad));
    assert_eq!(validate(&m), Ok(()));
    emit(&m).unwrap()
}

#[test]
fn test_edge_buffer_synthesizes() {
    let vlog = synthesize_edge_buffer(EdgeTristateBuffer::<8>::default());
    assert!(vlog.contains("module edge_tristate_buffer(to_pin, from_pin, output_enable, clk, pin, pad);"));
    assert!(vlog.contains("defparam dg_to_pin_7.DEL_VALUE = 0;"));
    assert!(vlog.contains("module DELAYG(input A, output Z);"));
}

#[test]
fn test_edge_buffer_synthesizes_with_delay() {
    let vlog = synthesize_edge_buffer(EdgeTristateBuffer::<8>::new(IODelays { to_pin: 25, from_pin: 40 }));
    assert!(vlog.contains("defparam dg_to_pin_0.DEL_VALUE = 25;"));
    assert!(vlog.contains("defparam dg_from_pin_7.DEL_VALUE = 40;"));
}

#[test]
fn one_bit_edge_buffer_uses_the_single_wrapper() {
    let b = EdgeTristateBuffer::<1>::new(IODelays { to_pin: 3, from_pin: 4 });
    let w = b.hdl();
    assert_eq!(w.code, wrapper_once(IODelays { to_pin: 3, from_pin: 4 }));
    assert!(w.cores.contains("module BB(input I, input T, output O, inout B);"));
}

#[test]
fn edge_buffer_registers_both_paths() {
    let mut m = Model::new("top".to_string());
    let p = EdgeTristateBuffer::<4>::new(IODelays::default()).build(&mut m, 0, "buf".to_string());
    assert_eq!(m.registers.len(), 2);
    assert_eq!((m.registers[0].d, m.registers[0].q), (p.to_pin, p.out_q));
    assert_eq!((m.registers[1].d, m.registers[1].q), (p.pin, p.in_q));
    assert!(matches!(m.components[p.component].behavior, Behavior::Primitive(_)));
}

fn timings() -> MemoryTimings {
    MemoryTimings {
        initial_delay_ns: 100_000,
        t_rp_ns: 18,
        t_rfc_ns: 60,
        t_refresh_max_ns: 64_000_000,
        t_rcd_ns: 18,
        t_wr_ns: 12,
        clock_hz: 125_000_000,
    }
}

#[test]
fn sdram_fifo_keeps_its_configuration() {
    let f = SDRAMFIFO::<6, 4, 4, 16, 12>::new(3, timings(), OutputBuffer::Wired);
    assert_eq!(f.cas_delay, 3);
    assert_eq!(f.timings, timings());
    assert_eq!(f.buffer, OutputBuffer::Wired);
}

#[test]
fn test_sdram_fifo_synthesizes() {
    let uut = SDRAMFIFO::<6, 4, 4, 16, 12>::new(3, timings(), OutputBuffer::Wired);
    let mut m = Model::new("top".to_string());
    let p = uut.build(&mut m, 0, "sdram_fifo_hls".to_string());
    for (port, width) in [
        (p.clock, 1),
        (p.ram_clock, 1),
        (p.write_data, 16),
        (p.write, 1),
        (p.read, 1),
        (p.sdram_read_data, 16),
    ] {
        let s = m.add_signal(0, format!("in_{}", port), Direction::In, width);
        m.assign(0, port, Expr::Sig(s));
    }
    assert_eq!(validate(&m), Ok(()));
    let vlog = emit(&m).unwrap();
    assert!(vlog.contains("    assign controller$data_in = 64'(write_data);\n"));
    assert!(vlog.contains("    assign almost_full = 64'(controller$full);\n"));
    assert!(vlog.contains("    assign sdram_address = 64'(controller$sdram_address);\n"));
    assert!(vlog.contains("    assign controller$sdram_read_data = 64'(sdram_read_data);\n"));
    assert!(vlog.contains("    output logic [12:0] sdram_address;\n"));
    assert!(vlog.contains("    controller controller_inst("));
}

#[test]
fn edge_buffer_drives_the_pin_only_when_enabled() {
    let mut m = Model::new("top".to_string());
    let p = EdgeTristateBuffer::<8>::new(IODelays::default()).build(&mut m, 0, "buf".to_string());
    let clk = m.add_signal(0, "clk".to_string(), Direction::In, 1);
    let to_pin = m.add_signal(0, "to_pin".to_string(), Direction::In, 8);
    let oe = m.add_signal(0, "oe".to_string(), Direction::In, 1);
    let pad = m.add_signal(0, "pad".to_string(), Direction::In, 8);
    let from_pin = m.add_signal(0, "from_pin".to_string(), Direction::Local, 8);
    m.assign(0, p.clk, Expr::Sig(clk));
    m.assign(0, p.to_pin, Expr::Sig(to_pin));
    m.assign(0, p.output_enable, Expr::Sig(oe));
    m.assign(0, p.pad, Expr::Sig(pad));
    m.assign(0, from_pin, Expr::Sig(p.from_pin));
    assert_eq!(validate(&m), Ok(()));
    let mut sim = Simulation::new(m);
    sim.add_clock(5, clk);
    let mut tb = Testbench::new();
    let pin_is = |v: u64| Expr::Eq(Box::new(Expr::Sig(p.pin)), Box::new(Expr::Const(v)));
    let from_is = |v: u64| Expr::Eq(Box::new(Expr::Sig(from_pin)), Box::new(Expr::Const(v)));
    // Output disabled: the outside's value is on the pin and comes back in.
    tb.push(Action::Drive(pad, 0x3c));
    tb.push(Action::Drive(to_pin, 0xa5));
    tb.push(Action::Wait(30));
    tb.push(Action::Check(pin_is(0x3c)));
    tb.push(Action::Check(from_is(0x3c)));
    // Output enabled: the registered outbound value drives the pin.
    tb.push(Action::Drive(oe, 1));
    tb.push(Action::Wait(30));
    tb.push(Action::Check(pin_is(0xa5)));
    tb.push(Action::Check(from_is(0xa5)));
    sim.add_testbench(tb);
    assert_eq!(sim.run(1000).0, Ok(()));
}
