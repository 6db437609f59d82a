use vstd::prelude::*;
use vstd::string::*;
use crate::expr::Expr;
use crate::bits::{lemma_pow2_64, truncate};
use crate::expr::eval;
use crate::model::{pass, Assign, Behavior, Direction, Model, Register, Wrapper};
use crate::settle::{is_fixpoint, lemma_fixpoint_sole_driver};
use crate::validate::{assign_drivers, lemma_assign_drivers_none};
use crate::text::{decimal, push_decimal};

verus! {

/// Delays, in device delay-tap units, applied on the two paths of a pin buffer.
#[derive(Clone, Copy, Debug, Default, PartialEq, Eq)]
pub struct IODelays {
    pub to_pin: u8,
    pub from_pin: u8,
}

// The text of the device primitives, cut where a delay or a bit index goes:
// `ONCE_*` for a one-bit buffer, `BLOCK_*` for each bit of a wider one, and
// `HEAD_*` around the blocks; `CORES` declares the primitives.
pub const ONCE_0: &'static str = "\n    wire bb_to_pin_a;\n    wire bb_to_pin_z;\n    wire bb_from_pin_a;\n    wire bb_from_pin_z;\n\n    OFS1P3DX obuf(.D(to_pin), .CD(0), .SP(1), .SCLK(clk), .Q(bb_to_pin_a));\n    IFS1P3DX ibuf(.D(bb_from_pin_z), .CD(0), .SP(1), .SCLK(clk), .Q(from_pin));\n    BB bb(.I(bb_to_pin_z), .O(bb_from_pin_a), .B(pin), .T(~output_enable));\n\n    defparam dg_to_pin.DEL_VALUE = ";
pub const ONCE_1: &'static str = ";\n    defparam dg_to_pin.DEL_MODE = \"USER_DEFINED\";\n    DELAYG dg_to_pin(.A(bb_to_pin_a),.Z(bb_to_pin_z));\n\n    defparam dg_from_pin.DEL_VALUE = ";
pub const ONCE_2: &'static str = ";\n    defparam dg_from_pin.DEL_MODE = \"USER_DEFINED\";\n    DELAYG dg_from_pin(.A(bb_from_pin_a),.Z(bb_from_pin_z));\n";
pub const BLOCK_0: &'static str = "\n    OFS1P3DX obuf_";
pub const BLOCK_1: &'static str = "(.D(to_pin[";
pub const BLOCK_2: &'static str = "]), .CD(0), .SP(1), .SCLK(clk), .Q(bb_to_pin_a[";
pub const BLOCK_3: &'static str = "]));\n    IFS1P3DX ibuf_";
pub const BLOCK_4: &'static str = "(.D(bb_from_pin_z[";
pub const BLOCK_5: &'static str = "]), .CD(0), .SP(1), .SCLK(clk), .Q(from_pin[";
pub const BLOCK_6: &'static str = "]));\n    BB bb_";
pub const BLOCK_7: &'static str = "(.I(bb_to_pin_z[";
pub const BLOCK_8: &'static str = "]), .O(bb_from_pin_a[";
pub const BLOCK_9: &'static str = "]), .B(pin[";
pub const BLOCK_10: &'static str = "]), .T(~output_enable));\n\n    defparam dg_to_pin_";
pub const BLOCK_11: &'static str = ".DEL_VALUE = ";
pub const BLOCK_12: &'static str = ";\n    defparam dg_to_pin_";
pub const BLOCK_13: &'static str = ".DEL_MODE = \"USER_DEFINED\";\n    DELAYG dg_to_pin_";
pub const BLOCK_14: &'static str = "(.A(bb_to_pin_a[";
pub const BLOCK_15: &'static str = "]),.Z(bb_to_pin_z[";
pub const BLOCK_16: &'static str = "]));\n\n    defparam dg_from_pin_";
pub const BLOCK_17: &'static str = ".DEL_VALUE = ";
pub const BLOCK_18: &'static str = ";\n    defparam dg_from_pin_";
pub const BLOCK_19: &'static str = ".DEL_MODE = \"USER_DEFINED\";\n    DELAYG dg_from_pin_";
pub const BLOCK_20: &'static str = "(.A(bb_from_pin_a[";
pub const BLOCK_21: &'static str = "]),.Z(bb_from_pin_z[";
pub const BLOCK_22: &'static str = "]));\n        ";
pub const HEAD_0: &'static str = "\nwire [";
pub const HEAD_1: &'static str = ":0] bb_to_pin_a;\nwire [";
pub const HEAD_2: &'static str = ":0] bb_to_pin_z;\nwire [";
pub const HEAD_3: &'static str = ":0] bb_from_pin_a;\nwire [";
pub const HEAD_4: &'static str = ":0] bb_from_pin_z;\n\n";
pub const HEAD_5: &'static str = "\n    ";
pub const CORES: &'static str = "\n(* blackbox *)\nmodule IFS1P3DX(input D, input SP, input SCLK, input CD, output Q);\nendmodule\n\n(* blackbox *)\nmodule OFS1P3DX(input D, input SP, input SCLK, input CD, output Q);\nendmodule\n\n(* blackbox *)\nmodule BB(input I, input T, output O, inout B);\nendmodule\n\n(* blackbox *)\nmodule DELAYG(input A, output Z);\nparameter DEL_MODE = \"USER_DEFINED\";\nparameter DEL_VALUE = 0;\nendmodule\n\n            ";

/// The wrapper text of a one-bit edge-registered tristate buffer.
pub open spec fn wrapper_once_text(d: IODelays) -> Seq<char> {
    ONCE_0@
        + decimal(d.to_pin as nat)
        + ONCE_1@
        + decimal(d.from_pin as nat)
        + ONCE_2@
}

/// The wrapper text for bit `x` of a multi-bit edge-registered tristate buffer.
pub open spec fn buffer_block_text(x: nat, d: IODelays) -> Seq<char> {
    BLOCK_0@
        + decimal(x)
        + BLOCK_1@
        + decimal(x)
        + BLOCK_2@
        + decimal(x)
        + BLOCK_3@
        + decimal(x)
        + BLOCK_4@
        + decimal(x)
        + BLOCK_5@
        + decimal(x)
        + BLOCK_6@
        + decimal(x)
        + BLOCK_7@
        + decimal(x)
        + BLOCK_8@
        + decimal(x)
        + BLOCK_9@
        + decimal(x)
        + BLOCK_10@
        + decimal(x)
        + BLOCK_11@
        + decimal(d.to_pin as nat)
        + BLOCK_12@
        + decimal(x)
        + BLOCK_13@
        + decimal(x)
        + BLOCK_14@
        + decimal(x)
        + BLOCK_15@
        + decimal(x)
        + BLOCK_16@
        + decimal(x)
        + BLOCK_17@
        + decimal(d.from_pin as nat)
        + BLOCK_18@
        + decimal(x)
        + BLOCK_19@
        + decimal(x)
        + BLOCK_20@
        + decimal(x)
        + BLOCK_21@
        + decimal(x)
        + BLOCK_22@
}

/// The blocks of bits `0..n`, separated by newlines.
pub open spec fn joined_blocks_text(n: nat, d: IODelays) -> Seq<char>
    decreases n,
{
    if n == 0 {
        Seq::empty()
    } else if n == 1 {
        buffer_block_text(0, d)
    } else {
        joined_blocks_text((n - 1) as nat, d) + "\n"@ + buffer_block_text((n - 1) as nat, d)
    }
}

/// The wrapper text of a `count`-bit edge-registered tristate buffer, given its
/// blocks: four `count`-bit wires, then the blocks.
pub open spec fn wrapper_head_text(count: nat, bufs: Seq<char>) -> Seq<char>
    recommends
        count >= 1,
{
    HEAD_0@
        + decimal((count - 1) as nat)
        + HEAD_1@
        + decimal((count - 1) as nat)
        + HEAD_2@
        + decimal((count - 1) as nat)
        + HEAD_3@
        + decimal((count - 1) as nat)
        + HEAD_4@
        + bufs
        + HEAD_5@
}

/// The wrapper text of a `count`-bit edge-registered tristate buffer.
pub open spec fn wrapper_multiple_text(count: nat, d: IODelays) -> Seq<char> {
    wrapper_head_text(count, joined_blocks_text(count, d))
}

/// Renders the device primitives of a one-bit edge-registered tristate buffer.
pub fn wrapper_once(d: IODelays) -> (r: String)
    ensures
        r@ == wrapper_once_text(d),
{
    let mut s = String::from_str(ONCE_0);
    push_decimal(&mut s, d.to_pin as u64);
    s.append(ONCE_1);
    push_decimal(&mut s, d.from_pin as u64);
    s.append(ONCE_2);
    s
}

fn buffer_block(x: usize, d: IODelays) -> (r: String)
    ensures
        r@ == buffer_block_text(x as nat, d),
{
    let mut s = String::from_str(BLOCK_0);
    push_decimal(&mut s, x as u64);
    s.append(BLOCK_1);
    push_decimal(&mut s, x as u64);
    s.append(BLOCK_2);
    push_decimal(&mut s, x as u64);
    s.append(BLOCK_3);
    push_decimal(&mut s, x as u64);
    s.append(BLOCK_4);
    push_decimal(&mut s, x as u64);
    s.append(BLOCK_5);
    push_decimal(&mut s, x as u64);
    s.append(BLOCK_6);
    push_decimal(&mut s, x as u64);
    s.append(BLOCK_7);
    push_decimal(&mut s, x as u64);
    s.append(BLOCK_8);
    push_decimal(&mut s, x as u64);
    s.append(BLOCK_9);
    push_decimal(&mut s, x as u64);
    s.append(BLOCK_10);
    push_decimal(&mut s, x as u64);
    s.append(BLOCK_11);
    push_decimal(&mut s, d.to_pin as u64);
    s.append(BLOCK_12);
    push_decimal(&mut s, x as u64);
    s.append(BLOCK_13);
    push_decimal(&mut s, x as u64);
    s.append(BLOCK_14);
    push_decimal(&mut s, x as u64);
    s.append(BLOCK_15);
    push_decimal(&mut s, x as u64);
    s.append(BLOCK_16);
    push_decimal(&mut s, x as u64);
    s.append(BLOCK_17);
    push_decimal(&mut s, d.from_pin as u64);
    s.append(BLOCK_18);
    push_decimal(&mut s, x as u64);
    s.append(BLOCK_19);
    push_decimal(&mut s, x as u64);
    s.append(BLOCK_20);
    push_decimal(&mut s, x as u64);
    s.append(BLOCK_21);
    push_decimal(&mut s, x as u64);
    s.append(BLOCK_22);
    s
}

/// Renders the device primitives of a `count`-bit edge-registered tristate buffer.
pub fn wrapper_multiple(count: usize, d: IODelays) -> (r: String)
    requires
        count >= 1,
    ensures
        r@ == wrapper_multiple_text(count as nat, d),
{
    let mut bufs = String::new();
    let mut x: usize = 0;
    while x < count
        invariant
            x <= count,
            bufs@ == joined_blocks_text(x as nat, d),
        decreases count - x,
    {
        if x > 0 {
            bufs.append("\n");
        }
        let block = buffer_block(x, d);
        bufs.append(block.as_str());
        x = x + 1;
    }
    let mut s = String::from_str(HEAD_0);
    push_decimal(&mut s, (count - 1) as u64);
    s.append(HEAD_1);
    push_decimal(&mut s, (count - 1) as u64);
    s.append(HEAD_2);
    push_decimal(&mut s, (count - 1) as u64);
    s.append(HEAD_3);
    push_decimal(&mut s, (count - 1) as u64);
    s.append(HEAD_4);
    s.append(bufs.as_str());
    s.append(HEAD_5);
    s
}

/// A bidirectional pin buffer with a register on each path, clocked by `clk`:
/// `to_pin` is registered on its way out, and the pin's value is registered on
/// its way in to `from_pin`. `N` is the width of the pin.
#[derive(Clone, Copy, Debug, Default, PartialEq, Eq)]
pub struct EdgeTristateBuffer<const N: usize> {
    pub delay: IODelays,
}

/// Where an edge tristate buffer stands in a model: its component and its
/// signals. `pad` is the value the outside drives onto the pin while the
/// buffer's output is disabled; `pin` is the pin's resolved value.
#[derive(Clone, Copy, Debug, PartialEq, Eq)]
pub struct EdgeTristatePorts {
    pub component: usize,
    pub to_pin: usize,
    pub from_pin: usize,
    pub output_enable: usize,
    pub clk: usize,
    pub pin: usize,
    pub pad: usize,
    pub out_q: usize,
    pub in_q: usize,
}

/// The primitive text of an `n`-bit edge tristate buffer.
pub open spec fn edge_buffer_code(n: nat, d: IODelays) -> Seq<char> {
    if n == 1 { wrapper_once_text(d) } else { wrapper_multiple_text(n, d) }
}

/// The tristate driver of the pin: the outbound register's value while the
/// output is enabled, else what the outside drives.
pub open spec fn pin_drive(p: EdgeTristatePorts) -> Assign {
    Assign {
        owner: p.component,
        target: p.pin,
        expr: Expr::Mux(Box::new(Expr::Sig(p.output_enable)), Box::new(Expr::Sig(p.out_q)), Box::new(Expr::Sig(p.pad))),
    }
}

/// Once settled, the pin carries the outbound register's value while the
/// output is enabled, and the outside's value otherwise; on the next rising
/// edge of `clk` that value is what the inbound register loads.
pub proof fn lemma_edge_buffer_pin(m: &Model, v: Seq<u64>, p: EdgeTristatePorts, k: int)
    requires
        m.wf(),
        v.len() == m.signals@.len(),
        is_fixpoint(m, v),
        0 <= k < m.assigns@.len(),
        m.assigns@[k] == pin_drive(p),
        assign_drivers(m.assigns@, p.pin as int) == 1,
    ensures
        v[p.output_enable as int] != 0 ==> v[p.pin as int] == truncate(v[p.out_q as int] as int, m.width_of(p.pin as int)),
        v[p.output_enable as int] == 0 ==> v[p.pin as int] == truncate(v[p.pad as int] as int, m.width_of(p.pin as int)),
{
    lemma_fixpoint_sole_driver(m, v, k);
    lemma_pow2_64();
    assert(eval(Expr::Sig(p.output_enable), v, 64) == v[p.output_enable as int]);
    assert(eval(Expr::Sig(p.out_q), v, 64) == v[p.out_q as int]);
    assert(eval(Expr::Sig(p.pad), v, 64) == v[p.pad as int]);
}

impl<const N: usize> EdgeTristateBuffer<N> {
    /// A buffer whose paths have the given delays.
    pub fn new(delay: IODelays) -> (r: Self)
        ensures
            r.delay == delay,
    {
        EdgeTristateBuffer { delay }
    }

    /// The device primitives this buffer stands for, and their declarations.
    pub fn hdl(&self) -> (r: Wrapper)
        requires
            N >= 1,
        ensures
            r.code@ == edge_buffer_code(N as nat, self.delay),
            r.cores@ == CORES@,
    {
        let code = if N == 1 { wrapper_once(self.delay) } else { wrapper_multiple(N, self.delay) };
        Wrapper { code, cores: String::from_str(CORES) }
    }

    /// Adds the buffer to `m` as a primitive component under `parent`: its
    /// ports, its two registers (`to_pin` out through `out_q`, the pin in
    /// through `in_q`), the tristate driver of the pin, and the wire from the
    /// inbound register to `from_pin`.
    pub fn build(&self, m: &mut Model, parent: usize, name: String) -> (r: EdgeTristatePorts)
        requires
            old(m).wf(),
            parent < old(m).components@.len(),
            1 <= N <= 64,
        ensures
            final(m).wf(),
            final(m).extends(old(m)),
            r.component == old(m).components@.len(),
            final(m).components@.len() == r.component + 1,
            final(m).components@[r.component as int].parent == Some(parent),
            final(m).components@[r.component as int].name == name,
            final(m).components@[r.component as int].behavior matches Behavior::Primitive(w)
                && w.code@ == edge_buffer_code(N as nat, self.delay) && w.cores@ == CORES@,
            final(m).declares(r.to_pin as int, r.component, "to_pin"@, Direction::In, N as nat),
            final(m).declares(r.from_pin as int, r.component, "from_pin"@, Direction::Out, N as nat),
            final(m).declares(r.output_enable as int, r.component, "output_enable"@, Direction::In, 1),
            final(m).declares(r.clk as int, r.component, "clk"@, Direction::In, 1),
            final(m).declares(r.pin as int, r.component, "pin"@, Direction::InOut, N as nat),
            final(m).declares(r.pad as int, r.component, "pad"@, Direction::In, N as nat),
            final(m).declares(r.out_q as int, r.component, "dff_out_q"@, Direction::Local, N as nat),
            final(m).declares(r.in_q as int, r.component, "dff_in_q"@, Direction::Local, N as nat),
            final(m).signals@.len() == old(m).signals@.len() + 8,
            final(m).registers@ == old(m).registers@ + seq![
                Register { owner: r.component, clock: r.clk, d: r.to_pin, q: r.out_q },
                Register { owner: r.component, clock: r.clk, d: r.pin, q: r.in_q },
            ],
            final(m).assigns@ == old(m).assigns@ + seq![pin_drive(r), pass(r.component, r.from_pin, r.in_q)],
            assign_drivers(final(m).assigns@, r.pin as int) == 1,
    {
        let c = m.add_component(parent, name, Behavior::Primitive(self.hdl()));
        let w = N as u32;
        let to_pin = m.add_signal(c, String::from_str("to_pin"), Direction::In, w);
        let from_pin = m.add_signal(c, String::from_str("from_pin"), Direction::Out, w);
        let output_enable = m.add_signal(c, String::from_str("output_enable"), Direction::In, 1);
        let clk = m.add_signal(c, String::from_str("clk"), Direction::In, 1);
        let pin = m.add_signal(c, String::from_str("pin"), Direction::InOut, w);
        let pad = m.add_signal(c, String::from_str("pad"), Direction::In, w);
        let out_q = m.add_signal(c, String::from_str("dff_out_q"), Direction::Local, w);
        let in_q = m.add_signal(c, String::from_str("dff_in_q"), Direction::Local, w);
        m.add_register(c, clk, to_pin, out_q);
        m.add_register(c, clk, pin, in_q);
        let ghost before = m.assigns@;
        let drive = Expr::Mux(Box::new(Expr::Sig(output_enable)), Box::new(Expr::Sig(out_q)), Box::new(Expr::Sig(pad)));
        proof {
            reveal_with_fuel(crate::expr::reads_within, 2);
        }
        m.assign(c, pin, drive);
        m.assign(c, from_pin, Expr::Sig(in_q));
        let r = EdgeTristatePorts { component: c, to_pin, from_pin, output_enable, clk, pin, pad, out_q, in_q };
        proof {
            assert(m.components@.take(old(m).components@.len() as int) =~= old(m).components@);
            assert(m.signals@.take(old(m).signals@.len() as int) =~= old(m).signals@);
            assert(m.assigns@.take(old(m).assigns@.len() as int) =~= old(m).assigns@);
            assert(m.registers@.take(old(m).registers@.len() as int) =~= old(m).registers@);
            assert(m.registers@ =~= old(m).registers@ + seq![
                Register { owner: c, clock: clk, d: to_pin, q: out_q },
                Register { owner: c, clock: clk, d: pin, q: in_q },
            ]);
            assert(m.assigns@ =~= old(m).assigns@ + seq![pin_drive(r), pass(c, from_pin, in_q)]);
            assert forall|k: int| 0 <= k < before.len() implies #[trigger] before[k].target != pin as int by {
                assert(old(m).assign_ok(old(m).assigns@[k]));
            }
            lemma_assign_drivers_none(before, pin as int);
            assert(m.assigns@.drop_last().drop_last() =~= before);
            assert(m.assigns@.drop_last().last() == pin_drive(r));
            reveal_with_fuel(assign_drivers, 3);
        }
        r
    }
}

} // verus!
