use vstd::prelude::*;
use crate::expr::Expr;
use crate::model::{pass, Behavior, Direction, Model};

verus! {

/// How the FIFO's read data leaves the controller.
#[derive(Clone, Copy, Debug, PartialEq, Eq, Structural)]
pub enum OutputBuffer {
    Wired,
    DelayOne,
    DelayTwo,
}

/// SDRAM timing parameters, in nanoseconds, with the controller's clock rate
/// in hertz.
#[derive(Clone, Copy, Debug, PartialEq, Eq, Structural)]
pub struct MemoryTimings {
    pub initial_delay_ns: u64,
    pub t_rp_ns: u64,
    pub t_rfc_ns: u64,
    pub t_refresh_max_ns: u64,
    pub t_rcd_ns: u64,
    pub t_wr_ns: u64,
    pub clock_hz: u64,
}

/// A FIFO held in SDRAM: a write port and a read port in front of an SDRAM
/// FIFO controller, whose SDRAM driver interface the FIFO passes through to
/// its own boundary. `R` and `C` are the row and column address widths, `P`
/// the number of banks' address bits, `D` the data width and `A` the address
/// width of the FIFO. The CAS latency, timings and output buffering configure
/// the controller.
#[derive(Clone, Copy, Debug, PartialEq, Eq)]
pub struct SDRAMFIFO<const R: usize, const C: usize, const P: u32, const D: usize, const A: usize> {
    pub cas_delay: u32,
    pub timings: MemoryTimings,
    pub buffer: OutputBuffer,
}

/// Where an SDRAM FIFO stands in a model: its component, the controller's
/// component, and their signals (the controller's prefixed `c_`, the SDRAM
/// driver interface's `sdram_`).
#[derive(Clone, Copy, Debug, PartialEq, Eq)]
pub struct SDRAMFIFOPorts {
    pub component: usize,
    pub controller: usize,
    pub clock: usize,
    pub ram_clock: usize,
    pub write_data: usize,
    pub write: usize,
    pub full: usize,
    pub almost_full: usize,
    pub read_data: usize,
    pub read: usize,
    pub empty: usize,
    pub almost_empty: usize,
    pub c_data_in: usize,
    pub c_write: usize,
    pub c_full: usize,
    pub c_data_out: usize,
    pub c_empty: usize,
    pub c_read: usize,
    pub c_clock: usize,
    pub c_ram_clock: usize,
    pub sdram_clk: usize,
    pub sdram_we_not: usize,
    pub sdram_cas_not: usize,
    pub sdram_ras_not: usize,
    pub sdram_cs_not: usize,
    pub sdram_bank: usize,
    pub sdram_address: usize,
    pub sdram_write_data: usize,
    pub sdram_read_data: usize,
    pub sdram_write_enable: usize,
    pub c_sdram_clk: usize,
    pub c_sdram_we_not: usize,
    pub c_sdram_cas_not: usize,
    pub c_sdram_ras_not: usize,
    pub c_sdram_cs_not: usize,
    pub c_sdram_bank: usize,
    pub c_sdram_address: usize,
    pub c_sdram_write_data: usize,
    pub c_sdram_read_data: usize,
    pub c_sdram_write_enable: usize,
}

impl<const R: usize, const C: usize, const P: u32, const D: usize, const A: usize> SDRAMFIFO<R, C, P, D, A> {
    /// A FIFO whose controller uses the given CAS latency, timings and output
    /// buffering.
    pub fn new(cas_delay: u32, timings: MemoryTimings, buffer: OutputBuffer) -> (r: Self)
        ensures
            r.cas_delay == cas_delay,
            r.timings == timings,
            r.buffer == buffer,
    {
        SDRAMFIFO { cas_delay, timings, buffer }
    }

    /// Adds the FIFO to `m` under `parent`: its ports, the controller as a
    /// child with its ports, the wiring between them, and the link of the
    /// controller's SDRAM driver interface to the FIFO's (the controller
    /// drives every SDRAM signal but `read_data`, which comes from outside).
    /// The controller's full and empty flags also serve as the almost-full and
    /// almost-empty flags.
    #[verifier::rlimit(60)]
    pub fn build(&self, m: &mut Model, parent: usize, name: String) -> (r: SDRAMFIFOPorts)
        requires
            old(m).wf(),
            parent < old(m).components@.len(),
            1 <= D <= 64,
        ensures
            final(m).wf(),
            final(m).extends(old(m)),
            r.component == old(m).components@.len(),
            r.controller == r.component + 1,
            final(m).components@.len() == r.controller + 1,
            final(m).components@[r.component as int].parent == Some(parent),
            final(m).components@[r.component as int].name == name,
            final(m).components@[r.controller as int].parent == Some(r.component),
            final(m).components@[r.controller as int].name@ == "controller"@,
            final(m).signals@.len() == old(m).signals@.len() + 38,
            final(m).registers@ == old(m).registers@,
            final(m).declares(r.clock as int, r.component, "clock"@, Direction::In, 1),
            final(m).declares(r.ram_clock as int, r.component, "ram_clock"@, Direction::In, 1),
            final(m).declares(r.write_data as int, r.component, "write_data"@, Direction::In, D as nat),
            final(m).declares(r.write as int, r.component, "write"@, Direction::In, 1),
            final(m).declares(r.full as int, r.component, "full"@, Direction::Out, 1),
            final(m).declares(r.almost_full as int, r.component, "almost_full"@, Direction::Out, 1),
            final(m).declares(r.read_data as int, r.component, "read_data"@, Direction::Out, D as nat),
            final(m).declares(r.read as int, r.component, "read"@, Direction::In, 1),
            final(m).declares(r.empty as int, r.component, "empty"@, Direction::Out, 1),
            final(m).declares(r.almost_empty as int, r.component, "almost_empty"@, Direction::Out, 1),
            final(m).declares(r.c_data_in as int, r.controller, "data_in"@, Direction::In, D as nat),
            final(m).declares(r.c_write as int, r.controller, "write"@, Direction::In, 1),
            final(m).declares(r.c_full as int, r.controller, "full"@, Direction::Out, 1),
            final(m).declares(r.c_data_out as int, r.controller, "data_out"@, Direction::Out, D as nat),
            final(m).declares(r.c_empty as int, r.controller, "empty"@, Direction::Out, 1),
            final(m).declares(r.c_read as int, r.controller, "read"@, Direction::In, 1),
            final(m).declares(r.c_clock as int, r.controller, "clock"@, Direction::In, 1),
            final(m).declares(r.c_ram_clock as int, r.controller, "ram_clock"@, Direction::In, 1),
            final(m).declares(r.sdram_clk as int, r.component, "sdram_clk"@, Direction::Out, 1),
            final(m).declares(r.sdram_we_not as int, r.component, "sdram_we_not"@, Direction::Out, 1),
            final(m).declares(r.sdram_cas_not as int, r.component, "sdram_cas_not"@, Direction::Out, 1),
            final(m).declares(r.sdram_ras_not as int, r.component, "sdram_ras_not"@, Direction::Out, 1),
            final(m).declares(r.sdram_cs_not as int, r.component, "sdram_cs_not"@, Direction::Out, 1),
            final(m).declares(r.sdram_bank as int, r.component, "sdram_bank"@, Direction::Out, 2),
            final(m).declares(r.sdram_address as int, r.component, "sdram_address"@, Direction::Out, 13),
            final(m).declares(r.sdram_write_data as int, r.component, "sdram_write_data"@, Direction::Out, D as nat),
            final(m).declares(r.sdram_read_data as int, r.component, "sdram_read_data"@, Direction::In, D as nat),
            final(m).declares(r.sdram_write_enable as int, r.component, "sdram_write_enable"@, Direction::Out, 1),
            final(m).declares(r.c_sdram_clk as int, r.controller, "sdram_clk"@, Direction::Out, 1),
            final(m).declares(r.c_sdram_we_not as int, r.controller, "sdram_we_not"@, Direction::Out, 1),
            final(m).declares(r.c_sdram_cas_not as int, r.controller, "sdram_cas_not"@, Direction::Out, 1),
            final(m).declares(r.c_sdram_ras_not as int, r.controller, "sdram_ras_not"@, Direction::Out, 1),
            final(m).declares(r.c_sdram_cs_not as int, r.controller, "sdram_cs_not"@, Direction::Out, 1),
            final(m).declares(r.c_sdram_bank as int, r.controller, "sdram_bank"@, Direction::Out, 2),
            final(m).declares(r.c_sdram_address as int, r.controller, "sdram_address"@, Direction::Out, 13),
            final(m).declares(r.c_sdram_write_data as int, r.controller, "sdram_write_data"@, Direction::Out, D as nat),
            final(m).declares(r.c_sdram_read_data as int, r.controller, "sdram_read_data"@, Direction::In, D as nat),
            final(m).declares(r.c_sdram_write_enable as int, r.controller, "sdram_write_enable"@, Direction::Out, 1),
            final(m).assigns@ == old(m).assigns@ + seq![
                pass(r.component, r.c_data_in, r.write_data),
                pass(r.component, r.c_write, r.write),
                pass(r.component, r.full, r.c_full),
                pass(r.component, r.almost_full, r.c_full),
                pass(r.component, r.read_data, r.c_data_out),
                pass(r.component, r.empty, r.c_empty),
                pass(r.component, r.almost_empty, r.c_empty),
                pass(r.component, r.c_read, r.read),
                pass(r.component, r.c_clock, r.clock),
                pass(r.component, r.c_ram_clock, r.ram_clock),
                pass(r.component, r.sdram_clk, r.c_sdram_clk),
                pass(r.component, r.sdram_we_not, r.c_sdram_we_not),
                pass(r.component, r.sdram_cas_not, r.c_sdram_cas_not),
                pass(r.component, r.sdram_ras_not, r.c_sdram_ras_not),
                pass(r.component, r.sdram_cs_not, r.c_sdram_cs_not),
                pass(r.component, r.sdram_bank, r.c_sdram_bank),
                pass(r.component, r.sdram_address, r.c_sdram_address),
                pass(r.component, r.sdram_write_data, r.c_sdram_write_data),
                pass(r.component, r.c_sdram_read_data, r.sdram_read_data),
                pass(r.component, r.sdram_write_enable, r.c_sdram_write_enable),
            ],
    {
        let w = D as u32;
        let c = m.add_component(parent, name, Behavior::Composite);
        let clock = m.add_signal(c, String::from_str("clock"), Direction::In, 1);
        let ram_clock = m.add_signal(c, String::from_str("ram_clock"), Direction::In, 1);
        let write_data = m.add_signal(c, String::from_str("write_data"), Direction::In, w);
        let write = m.add_signal(c, String::from_str("write"), Direction::In, 1);
        let full = m.add_signal(c, String::from_str("full"), Direction::Out, 1);
        let almost_full = m.add_signal(c, String::from_str("almost_full"), Direction::Out, 1);
        let read_data = m.add_signal(c, String::from_str("read_data"), Direction::Out, w);
        let read = m.add_signal(c, String::from_str("read"), Direction::In, 1);
        let empty = m.add_signal(c, String::from_str("empty"), Direction::Out, 1);
        let almost_empty = m.add_signal(c, String::from_str("almost_empty"), Direction::Out, 1);
        let sdram_clk = m.add_signal(c, String::from_str("sdram_clk"), Direction::Out, 1);
        let sdram_we_not = m.add_signal(c, String::from_str("sdram_we_not"), Direction::Out, 1);
        let sdram_cas_not = m.add_signal(c, String::from_str("sdram_cas_not"), Direction::Out, 1);
        let sdram_ras_not = m.add_signal(c, String::from_str("sdram_ras_not"), Direction::Out, 1);
        let sdram_cs_not = m.add_signal(c, String::from_str("sdram_cs_not"), Direction::Out, 1);
        let sdram_bank = m.add_signal(c, String::from_str("sdram_bank"), Direction::Out, 2);
        let sdram_address = m.add_signal(c, String::from_str("sdram_address"), Direction::Out, 13);
        let sdram_write_data = m.add_signal(c, String::from_str("sdram_write_data"), Direction::Out, w);
        let sdram_read_data = m.add_signal(c, String::from_str("sdram_read_data"), Direction::In, w);
        let sdram_write_enable = m.add_signal(c, String::from_str("sdram_write_enable"), Direction::Out, 1);
        let k = m.add_component(c, String::from_str("controller"), Behavior::Composite);
        let c_data_in = m.add_signal(k, String::from_str("data_in"), Direction::In, w);
        let c_write = m.add_signal(k, String::from_str("write"), Direction::In, 1);
        let c_full = m.add_signal(k, String::from_str("full"), Direction::Out, 1);
        let c_data_out = m.add_signal(k, String::from_str("data_out"), Direction::Out, w);
        let c_empty = m.add_signal(k, String::from_str("empty"), Direction::Out, 1);
        let c_read = m.add_signal(k, String::from_str("read"), Direction::In, 1);
        let c_clock = m.add_signal(k, String::from_str("clock"), Direction::In, 1);
        let c_ram_clock = m.add_signal(k, String::from_str("ram_clock"), Direction::In, 1);
        let c_sdram_clk = m.add_signal(k, String::from_str("sdram_clk"), Direction::Out, 1);
        let c_sdram_we_not = m.add_signal(k, String::from_str("sdram_we_not"), Direction::Out, 1);
        let c_sdram_cas_not = m.add_signal(k, String::from_str("sdram_cas_not"), Direction::Out, 1);
        let c_sdram_ras_not = m.add_signal(k, String::from_str("sdram_ras_not"), Direction::Out, 1);
        let c_sdram_cs_not = m.add_signal(k, String::from_str("sdram_cs_not"), Direction::Out, 1);
        let c_sdram_bank = m.add_signal(k, String::from_str("sdram_bank"), Direction::Out, 2);
        let c_sdram_address = m.add_signal(k, String::from_str("sdram_address"), Direction::Out, 13);
        let c_sdram_write_data = m.add_signal(k, String::from_str("sdram_write_data"), Direction::Out, w);
        let c_sdram_read_data = m.add_signal(k, String::from_str("sdram_read_data"), Direction::In, w);
        let c_sdram_write_enable = m.add_signal(k, String::from_str("sdram_write_enable"), Direction::Out, 1);
        m.assign(c, c_data_in, Expr::Sig(write_data));
        m.assign(c, c_write, Expr::Sig(write));
        m.assign(c, full, Expr::Sig(c_full));
        m.assign(c, almost_full, Expr::Sig(c_full));
        m.assign(c, read_data, Expr::Sig(c_data_out));
        m.assign(c, empty, Expr::Sig(c_empty));
        m.assign(c, almost_empty, Expr::Sig(c_empty));
        m.assign(c, c_read, Expr::Sig(read));
        m.assign(c, c_clock, Expr::Sig(clock));
        m.assign(c, c_ram_clock, Expr::Sig(ram_clock));
        let ghost wired = m.assigns@;
        let outer_bus = vec![sdram_clk, sdram_we_not, sdram_cas_not, sdram_ras_not, sdram_cs_not, sdram_bank, sdram_address, sdram_write_data, sdram_read_data, sdram_write_enable];
        let inner_bus = vec![c_sdram_clk, c_sdram_we_not, c_sdram_cas_not, c_sdram_ras_not, c_sdram_cs_not, c_sdram_bank, c_sdram_address, c_sdram_write_data, c_sdram_read_data, c_sdram_write_enable];
        m.link(c, &outer_bus, &inner_bus);
        proof {
            assert(m.components@.take(old(m).components@.len() as int) =~= old(m).components@);
            assert(m.signals@.take(old(m).signals@.len() as int) =~= old(m).signals@);
            assert(m.assigns@.take(old(m).assigns@.len() as int) =~= old(m).assigns@);
            assert(m.registers@.take(old(m).registers@.len() as int) =~= old(m).registers@);
            assert(m.assigns@ =~= old(m).assigns@ + seq![
                pass(c, c_data_in, write_data),
                pass(c, c_write, write),
                pass(c, full, c_full),
                pass(c, almost_full, c_full),
                pass(c, read_data, c_data_out),
                pass(c, empty, c_empty),
                pass(c, almost_empty, c_empty),
                pass(c, c_read, read),
                pass(c, c_clock, clock),
                pass(c, c_ram_clock, ram_clock),
                pass(c, sdram_clk, c_sdram_clk),
                pass(c, sdram_we_not, c_sdram_we_not),
                pass(c, sdram_cas_not, c_sdram_cas_not),
                pass(c, sdram_ras_not, c_sdram_ras_not),
                pass(c, sdram_cs_not, c_sdram_cs_not),
                pass(c, sdram_bank, c_sdram_bank),
                pass(c, sdram_address, c_sdram_address),
                pass(c, sdram_write_data, c_sdram_write_data),
                pass(c, c_sdram_read_data, sdram_read_data),
                pass(c, sdram_write_enable, c_sdram_write_enable),
            ]);
        }
        SDRAMFIFOPorts {
            component: c,
            controller: k,
            clock,
            ram_clock,
            write_data,
            write,
            full,
            almost_full,
            read_data,
            read,
            empty,
            almost_empty,
            c_data_in,
            c_write,
            c_full,
            c_data_out,
            c_empty,
            c_read,
            c_clock,
            c_ram_clock,
            sdram_clk,
            sdram_we_not,
            sdram_cas_not,
            sdram_ras_not,
            sdram_cs_not,
            sdram_bank,
            sdram_address,
            sdram_write_data,
            sdram_read_data,
            sdram_write_enable,
            c_sdram_clk,
            c_sdram_we_not,
            c_sdram_cas_not,
            c_sdram_ras_not,
            c_sdram_cs_not,
            c_sdram_bank,
            c_sdram_address,
            c_sdram_write_data,
            c_sdram_read_data,
            c_sdram_write_enable,
        }
    }
}

} // verus!
