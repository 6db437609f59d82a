use vstd::prelude::*;
use vstd::string::*;
use crate::expr::Expr;
use crate::model::{Assign, Behavior, Direction, Model, Register};
use crate::text::{decimal, push_decimal};
use crate::loops::acyclic;
use crate::validate::{connected, validate, ValidationError};

verus! {

/// Why a model cannot be rendered.
#[derive(Clone, Copy, Debug, PartialEq, Eq, Structural)]
pub enum EmitError {
    /// The model is not fully connected.
    Invalid(ValidationError),
    /// Logic of `component` touches a signal that is neither its own nor a
    /// port of one of its children.
    OutOfScope { component: usize },
}

/// Signal `s` is visible to component `c`: its own, or a port of a child.
pub open spec fn in_scope(m: &Model, c: usize, s: usize) -> bool {
    let d = m.signals@[s as int];
    d.owner == c || (m.components@[d.owner as int].parent == Some(c) && d.dir != Direction::Local)
}

/// Every signal that `e` reads is visible to `c`.
pub open spec fn expr_scoped(m: &Model, c: usize, e: Expr) -> bool
    decreases e,
{
    match e {
        Expr::Const(_) => true,
        Expr::Sig(i) => in_scope(m, c, i),
        Expr::Not(a) => expr_scoped(m, c, *a),
        Expr::And(a, b) => expr_scoped(m, c, *a) && expr_scoped(m, c, *b),
        Expr::Or(a, b) => expr_scoped(m, c, *a) && expr_scoped(m, c, *b),
        Expr::Xor(a, b) => expr_scoped(m, c, *a) && expr_scoped(m, c, *b),
        Expr::Add(a, b) => expr_scoped(m, c, *a) && expr_scoped(m, c, *b),
        Expr::Sub(a, b) => expr_scoped(m, c, *a) && expr_scoped(m, c, *b),
        Expr::Eq(a, b) => expr_scoped(m, c, *a) && expr_scoped(m, c, *b),
        Expr::Mux(s, a, b) => expr_scoped(m, c, *s) && expr_scoped(m, c, *a) && expr_scoped(m, c, *b),
        Expr::Shl(a, b) => expr_scoped(m, c, *a) && expr_scoped(m, c, *b),
        Expr::Shr(a, b) => expr_scoped(m, c, *a) && expr_scoped(m, c, *b),
    }
}

pub open spec fn assign_scoped(m: &Model, a: Assign) -> bool {
    in_scope(m, a.owner, a.target) && expr_scoped(m, a.owner, a.expr)
}

pub open spec fn register_scoped(m: &Model, r: Register) -> bool {
    in_scope(m, r.owner, r.clock) && in_scope(m, r.owner, r.d) && in_scope(m, r.owner, r.q)
}

/// All logic refers only to signals visible to the component that holds it.
pub open spec fn scoped(m: &Model) -> bool {
    &&& forall|k: int| 0 <= k < m.assigns@.len() ==> assign_scoped(m, #[trigger] m.assigns@[k])
    &&& forall|k: int| 0 <= k < m.registers@.len() ==> register_scoped(m, #[trigger] m.registers@[k])
}

/// How component `c` names signal `s`: by its own name, or, for a child's
/// port, as `child$port`.
pub open spec fn sig_ref(m: &Model, c: usize, s: usize) -> Seq<char> {
    let d = m.signals@[s as int];
    if d.owner == c {
        d.name@
    } else {
        m.components@[d.owner as int].name@ + "$"@ + d.name@
    }
}

pub open spec fn binary(a: Seq<char>, op: Seq<char>, b: Seq<char>) -> Seq<char> {
    "("@ + a + op + b + ")"@
}

/// The target text of expression `e` inside component `c`. Every operand is
/// 64 bits wide, as in simulation: signals are widened with a size cast and
/// constants are written at 64 bits; the assignment then cuts the result to
/// its target's width.
pub open spec fn render_expr(m: &Model, c: usize, e: Expr) -> Seq<char>
    decreases e,
{
    match e {
        Expr::Const(x) => "64'd"@ + decimal(x as nat),
        Expr::Sig(i) => "64'("@ + sig_ref(m, c, i) + ")"@,
        Expr::Not(a) => "~("@ + render_expr(m, c, *a) + ")"@,
        Expr::And(a, b) => binary(render_expr(m, c, *a), " & "@, render_expr(m, c, *b)),
        Expr::Or(a, b) => binary(render_expr(m, c, *a), " | "@, render_expr(m, c, *b)),
        Expr::Xor(a, b) => binary(render_expr(m, c, *a), " ^ "@, render_expr(m, c, *b)),
        Expr::Add(a, b) => binary(render_expr(m, c, *a), " + "@, render_expr(m, c, *b)),
        Expr::Sub(a, b) => binary(render_expr(m, c, *a), " - "@, render_expr(m, c, *b)),
        Expr::Eq(a, b) => binary(render_expr(m, c, *a), " == "@, render_expr(m, c, *b)),
        Expr::Mux(s, a, b) => "("@ + render_expr(m, c, *s) + " != 0 ? "@ + render_expr(m, c, *a) + " : "@
            + render_expr(m, c, *b) + ")"@,
        Expr::Shl(a, b) => binary(render_expr(m, c, *a), " << "@, render_expr(m, c, *b)),
        Expr::Shr(a, b) => binary(render_expr(m, c, *a), " >> "@, render_expr(m, c, *b)),
    }
}

/// A bit range for width `w`: nothing for one bit, else `[w-1:0] `.
pub open spec fn range(w: nat) -> Seq<char> {
    if w <= 1 {
        Seq::empty()
    } else {
        "["@ + decimal((w - 1) as nat) + ":0] "@
    }
}

pub open spec fn dir_keyword(d: Direction) -> Seq<char> {
    match d {
        Direction::In => "input logic "@,
        Direction::Out => "output logic "@,
        Direction::InOut => "inout wire "@,
        Direction::Local => "logic "@,
    }
}

/// The declaration of signal `s` in the module of its owner.
pub open spec fn decl_line(m: &Model, s: int) -> Seq<char> {
    "    "@ + dir_keyword(m.signals@[s].dir) + range(m.width_of(s)) + m.signals@[s].name@ + ";\n"@
}

/// Signal `s` is a port (not local) owned by component `c`.
pub open spec fn is_port_of(m: &Model, c: int, s: int) -> bool {
    m.signals@[s].owner == c && m.signals@[s].dir != Direction::Local
}

/// `items` joined by `, `.
pub open spec fn join_with(prev: Seq<char>, item: Seq<char>) -> Seq<char> {
    if prev.len() == 0 { item } else { prev + ", "@ + item }
}

/// The names of the ports of `c` among the first `n` signals.
pub open spec fn port_list(m: &Model, c: int, n: nat) -> Seq<char>
    decreases n,
{
    if n == 0 {
        Seq::empty()
    } else {
        let prev = port_list(m, c, (n - 1) as nat);
        if is_port_of(m, c, n - 1) { join_with(prev, m.signals@[n - 1].name@) } else { prev }
    }
}

/// The declarations of the signals of `c` among the first `n`.
pub open spec fn decls(m: &Model, c: int, n: nat) -> Seq<char>
    decreases n,
{
    if n == 0 {
        Seq::empty()
    } else {
        decls(m, c, (n - 1) as nat) + if m.signals@[n - 1].owner == c { decl_line(m, n - 1) } else { Seq::empty() }
    }
}

/// Inside `c`, the wires for the ports of child `ch` among the first `n` signals.
pub open spec fn child_wires(m: &Model, c: int, ch: int, n: nat) -> Seq<char>
    decreases n,
{
    if n == 0 {
        Seq::empty()
    } else {
        child_wires(m, c, ch, (n - 1) as nat) + if is_port_of(m, ch, n - 1) {
            "    logic "@ + range(m.width_of(n - 1)) + sig_ref(m, c as usize, (n - 1) as usize) + ";\n"@
        } else {
            Seq::empty()
        }
    }
}

/// The connections of child `ch`'s ports among the first `n` signals.
pub open spec fn child_binds(m: &Model, c: int, ch: int, n: nat) -> Seq<char>
    decreases n,
{
    if n == 0 {
        Seq::empty()
    } else {
        let prev = child_binds(m, c, ch, (n - 1) as nat);
        if is_port_of(m, ch, n - 1) {
            join_with(prev, "."@ + m.signals@[n - 1].name@ + "("@ + sig_ref(m, c as usize, (n - 1) as usize) + ")"@)
        } else {
            prev
        }
    }
}

/// The wires and instance of child `ch` inside `c`.
pub open spec fn child_text(m: &Model, c: int, ch: int) -> Seq<char> {
    let name = m.components@[ch].name@;
    child_wires(m, c, ch, m.signals@.len()) + "    "@ + name + " "@ + name + "_inst("@ + child_binds(
        m,
        c,
        ch,
        m.signals@.len(),
    ) + ");\n"@
}

/// The children of `c` among the first `n` components.
pub open spec fn children_text(m: &Model, c: int, n: nat) -> Seq<char>
    decreases n,
{
    if n == 0 {
        Seq::empty()
    } else {
        children_text(m, c, (n - 1) as nat) + if m.components@[n - 1].parent == Some(c as usize) {
            child_text(m, c, n - 1)
        } else {
            Seq::empty()
        }
    }
}

/// The assignments of `c` among the first `n`.
pub open spec fn assigns_text(m: &Model, c: int, n: nat) -> Seq<char>
    decreases n,
{
    if n == 0 {
        Seq::empty()
    } else {
        let a = m.assigns@[n - 1];
        assigns_text(m, c, (n - 1) as nat) + if a.owner == c {
            "    assign "@ + sig_ref(m, a.owner, a.target) + " = "@ + render_expr(m, a.owner, a.expr) + ";\n"@
        } else {
            Seq::empty()
        }
    }
}

/// The registers of `c` among the first `n`.
pub open spec fn registers_text(m: &Model, c: int, n: nat) -> Seq<char>
    decreases n,
{
    if n == 0 {
        Seq::empty()
    } else {
        let r = m.registers@[n - 1];
        registers_text(m, c, (n - 1) as nat) + if r.owner == c {
            "    always_ff @(posedge "@ + sig_ref(m, r.owner, r.clock) + ") "@ + sig_ref(m, r.owner, r.q) + " <= "@
                + sig_ref(m, r.owner, r.d) + ";\n"@
        } else {
            Seq::empty()
        }
    }
}

/// The body of component `c`: its own text for a primitive, else its
/// children, assignments and registers.
pub open spec fn body_text(m: &Model, c: int) -> Seq<char> {
    match m.components@[c].behavior {
        Behavior::Primitive(w) => w.code@,
        Behavior::Composite => children_text(m, c, m.components@.len()) + assigns_text(m, c, m.assigns@.len())
            + registers_text(m, c, m.registers@.len()),
    }
}

/// The module of component `c`, followed by a primitive's declarations.
pub open spec fn module_text(m: &Model, c: int) -> Seq<char> {
    let name = m.components@[c].name@;
    "\nmodule "@ + name + "("@ + port_list(m, c, m.signals@.len()) + ");\n"@ + decls(m, c, m.signals@.len())
        + body_text(m, c) + "endmodule\n"@ + match m.components@[c].behavior {
        Behavior::Primitive(w) => w.cores@,
        Behavior::Composite => Seq::empty(),
    }
}

/// The modules of the first `n` components.
pub open spec fn netlist(m: &Model, n: nat) -> Seq<char>
    decreases n,
{
    if n == 0 {
        Seq::empty()
    } else {
        netlist(m, (n - 1) as nat) + module_text(m, n - 1)
    }
}


/// `part` occurs in `whole` at offset `i`.
pub open spec fn occurs_at(whole: Seq<char>, part: Seq<char>, i: int) -> bool {
    0 <= i && i + part.len() <= whole.len() && whole.subrange(i, i + part.len()) == part
}

proof fn lemma_occurs_in_sum(a: Seq<char>, b: Seq<char>, c: Seq<char>, part: Seq<char>, i: int)
    requires
        occurs_at(b, part, i),
    ensures
        occurs_at(a + b + c, part, a.len() + i),
{
    assert((a + b + c).subrange(a.len() + i, a.len() + i + part.len()) =~= b.subrange(i, i + part.len()));
}

proof fn lemma_decls_declare(m: &Model, c: int, n: nat, s: int)
    requires
        0 <= s < n <= m.signals@.len(),
        m.signals@[s].owner == c,
    ensures
        exists|i: int| #[trigger] occurs_at(decls(m, c, n), decl_line(m, s), i),
    decreases n,
{
    let prev = decls(m, c, (n - 1) as nat);
    let last = if m.signals@[n - 1].owner == c { decl_line(m, n - 1) } else { Seq::<char>::empty() };
    if s == n - 1 {
        assert(decl_line(m, s).subrange(0, decl_line(m, s).len() as int) =~= decl_line(m, s));
        lemma_occurs_in_sum(prev, decl_line(m, s), Seq::empty(), decl_line(m, s), 0);
        assert(prev + decl_line(m, s) + Seq::<char>::empty() =~= decls(m, c, n));
    } else {
        lemma_decls_declare(m, c, (n - 1) as nat, s);
        let i = choose|i: int| #[trigger] occurs_at(prev, decl_line(m, s), i);
        lemma_occurs_in_sum(Seq::empty(), prev, last, decl_line(m, s), i);
        assert(Seq::<char>::empty() + prev + last =~= decls(m, c, n));
    }
}

proof fn lemma_netlist_has_module(m: &Model, n: nat, c: int, part: Seq<char>, i: int)
    requires
        0 <= c < n,
        occurs_at(module_text(m, c), part, i),
    ensures
        exists|j: int| #[trigger] occurs_at(netlist(m, n), part, j),
    decreases n,
{
    if c == n - 1 {
        lemma_occurs_in_sum(netlist(m, (n - 1) as nat), module_text(m, c), Seq::empty(), part, i);
        assert(netlist(m, (n - 1) as nat) + module_text(m, c) + Seq::<char>::empty() =~= netlist(m, n));
    } else {
        lemma_netlist_has_module(m, (n - 1) as nat, c, part, i);
        let j = choose|j: int| #[trigger] occurs_at(netlist(m, (n - 1) as nat), part, j);
        lemma_occurs_in_sum(Seq::empty(), netlist(m, (n - 1) as nat), module_text(m, n - 1), part, j);
        assert(Seq::<char>::empty() + netlist(m, (n - 1) as nat) + module_text(m, n - 1) =~= netlist(m, n));
    }
}

/// The netlist and the simulator read the same signals: every signal is
/// declared in its owner's module, with its direction and the width that
/// settling cuts its values to.
pub proof fn lemma_netlist_declares_signal(m: &Model, s: int)
    requires
        m.wf(),
        0 <= s < m.signals@.len(),
    ensures
        exists|j: int| #[trigger] occurs_at(netlist(m, m.components@.len()), decl_line(m, s), j),
        decl_line(m, s) == "    "@ + dir_keyword(m.signals@[s].dir) + range(m.width_of(s)) + m.signals@[s].name@ + ";\n"@,
{
    let c = m.signals@[s].owner as int;
    assert(m.signal_ok(m.signals@[s]));
    lemma_decls_declare(m, c, m.signals@.len(), s);
    let i = choose|i: int| #[trigger] occurs_at(decls(m, c, m.signals@.len()), decl_line(m, s), i);
    let name = m.components@[c].name@;
    let head = "\nmodule "@ + name + "("@ + port_list(m, c, m.signals@.len()) + ");\n"@;
    let tail = body_text(m, c) + "endmodule\n"@ + match m.components@[c].behavior {
        Behavior::Primitive(w) => w.cores@,
        Behavior::Composite => Seq::empty(),
    };
    lemma_occurs_in_sum(head, decls(m, c, m.signals@.len()), tail, decl_line(m, s), i);
    assert(head + decls(m, c, m.signals@.len()) + tail =~= module_text(m, c));
    lemma_netlist_has_module(m, m.components@.len(), c, decl_line(m, s), head.len() + i);
}

fn push_sig_ref(m: &Model, c: usize, s: usize, out: &mut String)
    requires
        m.wf(),
        s < m.signals@.len(),
    ensures
        final(out)@ == old(out)@ + sig_ref(m, c, s),
{
    let d = &m.signals[s];
    proof {
        assert(m.signal_ok(m.signals@[s as int]));
    }
    if d.owner != c {
        out.append(m.components[d.owner].name.as_str());
        out.append("$");
    }
    out.append(d.name.as_str());
    proof {
        if d.owner != c {
            assert(final(out)@ =~= old(out)@ + sig_ref(m, c, s));
        }
    }
}

/// Appends the target text of `e`, as component `c` names signals.
pub fn push_expr(m: &Model, c: usize, e: &Expr, out: &mut String)
    requires
        m.wf(),
        crate::expr::reads_within(*e, m.signals@.len()),
    ensures
        final(out)@ == old(out)@ + render_expr(m, c, *e),
    decreases e,
{
    match e {
        Expr::Const(x) => {
            out.append("64'd");
            push_decimal(out, *x);
        },
        Expr::Sig(i) => {
            out.append("64'(");
            push_sig_ref(m, c, *i, out);
            out.append(")");
        },
        Expr::Not(a) => {
            out.append("~(");
            push_expr(m, c, a, out);
            out.append(")");
        },
        Expr::And(a, b) => {
            out.append("(");
            push_expr(m, c, a, out);
            out.append(" & ");
            push_expr(m, c, b, out);
            out.append(")");
        },
        Expr::Or(a, b) => {
            out.append("(");
            push_expr(m, c, a, out);
            out.append(" | ");
            push_expr(m, c, b, out);
            out.append(")");
        },
        Expr::Xor(a, b) => {
            out.append("(");
            push_expr(m, c, a, out);
            out.append(" ^ ");
            push_expr(m, c, b, out);
            out.append(")");
        },
        Expr::Add(a, b) => {
            out.append("(");
            push_expr(m, c, a, out);
            out.append(" + ");
            push_expr(m, c, b, out);
            out.append(")");
        },
        Expr::Sub(a, b) => {
            out.append("(");
            push_expr(m, c, a, out);
            out.append(" - ");
            push_expr(m, c, b, out);
            out.append(")");
        },
        Expr::Eq(a, b) => {
            out.append("(");
            push_expr(m, c, a, out);
            out.append(" == ");
            push_expr(m, c, b, out);
            out.append(")");
        },
        Expr::Mux(x, a, b) => {
            out.append("(");
            push_expr(m, c, x, out);
            out.append(" != 0 ? ");
            push_expr(m, c, a, out);
            out.append(" : ");
            push_expr(m, c, b, out);
            out.append(")");
        },
        Expr::Shl(a, b) => {
            out.append("(");
            push_expr(m, c, a, out);
            out.append(" << ");
            push_expr(m, c, b, out);
            out.append(")");
        },
        Expr::Shr(a, b) => {
            out.append("(");
            push_expr(m, c, a, out);
            out.append(" >> ");
            push_expr(m, c, b, out);
            out.append(")");
        },
    }
    proof {
        assert(final(out)@ =~= old(out)@ + render_expr(m, c, *e));
    }
}

fn push_range(w: u32, out: &mut String)
    ensures
        final(out)@ == old(out)@ + range(w as nat),
{
    if w > 1 {
        out.append("[");
        push_decimal(out, (w - 1) as u64);
        out.append(":0] ");
        proof {
            assert(final(out)@ =~= old(out)@ + range(w as nat));
        }
    } else {
        proof {
            assert(final(out)@ =~= old(out)@ + range(w as nat));
        }
    }
}

fn push_decl(m: &Model, s: usize, out: &mut String)
    requires
        m.wf(),
        s < m.signals@.len(),
    ensures
        final(out)@ == old(out)@ + decl_line(m, s as int),
{
    let d = &m.signals[s];
    out.append("    ");
    match d.dir {
        Direction::In => out.append("input logic "),
        Direction::Out => out.append("output logic "),
        Direction::InOut => out.append("inout wire "),
        Direction::Local => out.append("logic "),
    }
    push_range(d.width, out);
    out.append(d.name.as_str());
    out.append(";\n");
    proof {
        assert(final(out)@ =~= old(out)@ + decl_line(m, s as int));
    }
}

fn push_joined(list: &mut String, item: &str)
    ensures
        final(list)@ == join_with(old(list)@, item@),
{
    if list.as_str().unicode_len() == 0 {
        proof {
            assert(old(list)@ =~= Seq::<char>::empty());
        }
        list.append(item);
        proof {
            assert(final(list)@ =~= item@);
        }
    } else {
        list.append(", ");
        list.append(item);
    }
}

fn push_module(m: &Model, c: usize, out: &mut String)
    requires
        m.wf(),
        c < m.components@.len(),
    ensures
        final(out)@ == old(out)@ + module_text(m, c as int),
{
    let n = m.signals.len();
    let comp = &m.components[c];
    let mut ports = String::new();
    let mut decl = String::new();
    let mut s: usize = 0;
    while s < n
        invariant
            m.wf(),
            n == m.signals@.len(),
            s <= n,
            ports@ == port_list(m, c as int, s as nat),
            decl@ == decls(m, c as int, s as nat),
        decreases n - s,
    {
        let d = &m.signals[s];
        if d.owner == c && d.dir != Direction::Local {
            push_joined(&mut ports, d.name.as_str());
        }
        if d.owner == c {
            push_decl(m, s, &mut decl);
        } else {
            proof {
                assert(decl@ =~= decl@ + Seq::<char>::empty());
            }
        }
        s = s + 1;
    }
    out.append("\nmodule ");
    out.append(comp.name.as_str());
    out.append("(");
    out.append(ports.as_str());
    out.append(");\n");
    out.append(decl.as_str());
    push_body(m, c, out);
    out.append("endmodule\n");
    match &comp.behavior {
        Behavior::Primitive(w) => out.append(w.cores.as_str()),
        Behavior::Composite => {},
    }
    proof {
        assert(final(out)@ =~= old(out)@ + module_text(m, c as int));
    }
}

fn push_body(m: &Model, c: usize, out: &mut String)
    requires
        m.wf(),
        c < m.components@.len(),
    ensures
        final(out)@ == old(out)@ + body_text(m, c as int),
{
    match &m.components[c].behavior {
        Behavior::Primitive(w) => {
            out.append(w.code.as_str());
        },
        Behavior::Composite => {
            push_children(m, c, out);
            push_assigns(m, c, out);
            push_registers(m, c, out);
            proof {
                assert(final(out)@ =~= old(out)@ + body_text(m, c as int));
            }
        },
    }
}

fn push_child(m: &Model, c: usize, ch: usize, out: &mut String)
    requires
        m.wf(),
        c < m.components@.len(),
        ch < m.components@.len(),
    ensures
        final(out)@ == old(out)@ + child_text(m, c as int, ch as int),
{
    let n = m.signals.len();
    let mut wires = String::new();
    let mut binds = String::new();
    let mut s: usize = 0;
    while s < n
        invariant
            m.wf(),
            n == m.signals@.len(),
            s <= n,
            wires@ == child_wires(m, c as int, ch as int, s as nat),
            binds@ == child_binds(m, c as int, ch as int, s as nat),
        decreases n - s,
    {
        let d = &m.signals[s];
        if d.owner == ch && d.dir != Direction::Local {
            wires.append("    logic ");
            push_range(d.width, &mut wires);
            push_sig_ref(m, c, s, &mut wires);
            wires.append(";\n");
            let mut item = String::from_str(".");
            item.append(d.name.as_str());
            item.append("(");
            push_sig_ref(m, c, s, &mut item);
            item.append(")");
            push_joined(&mut binds, item.as_str());
            proof {
                assert(wires@ =~= child_wires(m, c as int, ch as int, (s + 1) as nat));
                assert(item@ =~= "."@ + m.signals@[s as int].name@ + "("@ + sig_ref(m, c, s) + ")"@);
            }
        } else {
            proof {
                assert(wires@ =~= child_wires(m, c as int, ch as int, (s + 1) as nat));
            }
        }
        s = s + 1;
    }
    let name = m.components[ch].name.as_str();
    out.append(wires.as_str());
    out.append("    ");
    out.append(name);
    out.append(" ");
    out.append(name);
    out.append("_inst(");
    out.append(binds.as_str());
    out.append(");\n");
    proof {
        assert(final(out)@ =~= old(out)@ + child_text(m, c as int, ch as int));
    }
}

fn push_children(m: &Model, c: usize, out: &mut String)
    requires
        m.wf(),
        c < m.components@.len(),
    ensures
        final(out)@ == old(out)@ + children_text(m, c as int, m.components@.len()),
{
    let n = m.components.len();
    let mut k: usize = 0;
    while k < n
        invariant
            m.wf(),
            c < m.components@.len(),
            n == m.components@.len(),
            k <= n,
            out@ == old(out)@ + children_text(m, c as int, k as nat),
        decreases n - k,
    {
        if m.components[k].parent == Some(c) {
            push_child(m, c, k, out);
        }
        k = k + 1;
        proof {
            assert(out@ =~= old(out)@ + children_text(m, c as int, k as nat));
        }
    }
}

fn push_assigns(m: &Model, c: usize, out: &mut String)
    requires
        m.wf(),
    ensures
        final(out)@ == old(out)@ + assigns_text(m, c as int, m.assigns@.len()),
{
    let n = m.assigns.len();
    let mut k: usize = 0;
    while k < n
        invariant
            m.wf(),
            n == m.assigns@.len(),
            k <= n,
            out@ == old(out)@ + assigns_text(m, c as int, k as nat),
        decreases n - k,
    {
        let a = &m.assigns[k];
        proof {
            assert(m.assign_ok(m.assigns@[k as int]));
        }
        if a.owner == c {
            out.append("    assign ");
            push_sig_ref(m, a.owner, a.target, out);
            out.append(" = ");
            push_expr(m, a.owner, &a.expr, out);
            out.append(";\n");
        }
        k = k + 1;
        proof {
            assert(out@ =~= old(out)@ + assigns_text(m, c as int, k as nat));
        }
    }
}

fn push_registers(m: &Model, c: usize, out: &mut String)
    requires
        m.wf(),
    ensures
        final(out)@ == old(out)@ + registers_text(m, c as int, m.registers@.len()),
{
    let n = m.registers.len();
    let mut k: usize = 0;
    while k < n
        invariant
            m.wf(),
            n == m.registers@.len(),
            k <= n,
            out@ == old(out)@ + registers_text(m, c as int, k as nat),
        decreases n - k,
    {
        let r = m.registers[k];
        proof {
            assert(m.register_ok(m.registers@[k as int]));
        }
        if r.owner == c {
            out.append("    always_ff @(posedge ");
            push_sig_ref(m, r.owner, r.clock, out);
            out.append(") ");
            push_sig_ref(m, r.owner, r.q, out);
            out.append(" <= ");
            push_sig_ref(m, r.owner, r.d, out);
            out.append(";\n");
        }
        k = k + 1;
        proof {
            assert(out@ =~= old(out)@ + registers_text(m, c as int, k as nat));
        }
    }
}

fn signal_in_scope(m: &Model, c: usize, s: usize) -> (r: bool)
    requires
        m.wf(),
        s < m.signals@.len(),
    ensures
        r == in_scope(m, c, s),
{
    let d = &m.signals[s];
    proof {
        assert(m.signal_ok(m.signals@[s as int]));
    }
    d.owner == c || (m.components[d.owner].parent == Some(c) && d.dir != Direction::Local)
}

fn expr_in_scope(m: &Model, c: usize, e: &Expr) -> (r: bool)
    requires
        m.wf(),
        crate::expr::reads_within(*e, m.signals@.len()),
    ensures
        r == expr_scoped(m, c, *e),
    decreases e,
{
    match e {
        Expr::Const(_) => true,
        Expr::Sig(i) => signal_in_scope(m, c, *i),
        Expr::Not(a) => expr_in_scope(m, c, a),
        Expr::And(a, b) => expr_in_scope(m, c, a) && expr_in_scope(m, c, b),
        Expr::Or(a, b) => expr_in_scope(m, c, a) && expr_in_scope(m, c, b),
        Expr::Xor(a, b) => expr_in_scope(m, c, a) && expr_in_scope(m, c, b),
        Expr::Add(a, b) => expr_in_scope(m, c, a) && expr_in_scope(m, c, b),
        Expr::Sub(a, b) => expr_in_scope(m, c, a) && expr_in_scope(m, c, b),
        Expr::Eq(a, b) => expr_in_scope(m, c, a) && expr_in_scope(m, c, b),
        Expr::Mux(x, a, b) => expr_in_scope(m, c, x) && expr_in_scope(m, c, a) && expr_in_scope(m, c, b),
        Expr::Shl(a, b) => expr_in_scope(m, c, a) && expr_in_scope(m, c, b),
        Expr::Shr(a, b) => expr_in_scope(m, c, a) && expr_in_scope(m, c, b),
    }
}

/// `c` holds the first assignment that touches a signal out of its scope.
pub open spec fn first_unscoped_assign_owner(m: &Model, c: usize) -> bool {
    exists|k: int|
        0 <= k < m.assigns@.len() && !assign_scoped(m, #[trigger] m.assigns@[k]) && m.assigns@[k].owner == c
            && forall|j: int| 0 <= j < k ==> assign_scoped(m, #[trigger] m.assigns@[j])
}

/// Every assignment stays in scope, and `c` holds the first register that
/// does not.
pub open spec fn first_unscoped_register_owner(m: &Model, c: usize) -> bool {
    &&& forall|j: int| 0 <= j < m.assigns@.len() ==> assign_scoped(m, #[trigger] m.assigns@[j])
    &&& exists|k: int|
        0 <= k < m.registers@.len() && !register_scoped(m, #[trigger] m.registers@[k]) && m.registers@[k].owner == c
            && forall|j: int| 0 <= j < k ==> register_scoped(m, #[trigger] m.registers@[j])
}

/// The component holding the first assignment, or else the first register,
/// that touches a signal out of its scope; `None` if there is none.
pub fn check_scope(m: &Model) -> (r: Option<usize>)
    requires
        m.wf(),
    ensures
        r is None <==> scoped(m),
        r matches Some(c) ==> c < m.components@.len(),
        r matches Some(c) ==> first_unscoped_assign_owner(m, c) || first_unscoped_register_owner(m, c),
{
    let mut k: usize = 0;
    while k < m.assigns.len()
        invariant
            m.wf(),
            k <= m.assigns@.len(),
            forall|j: int| 0 <= j < k ==> assign_scoped(m, #[trigger] m.assigns@[j]),
        decreases m.assigns@.len() - k,
    {
        let a = &m.assigns[k];
        proof {
            assert(m.assign_ok(m.assigns@[k as int]));
        }
        if !(signal_in_scope(m, a.owner, a.target) && expr_in_scope(m, a.owner, &a.expr)) {
            return Some(a.owner);
        }
        k = k + 1;
    }
    let mut k: usize = 0;
    while k < m.registers.len()
        invariant
            m.wf(),
            k <= m.registers@.len(),
            forall|j: int| 0 <= j < m.assigns@.len() ==> assign_scoped(m, #[trigger] m.assigns@[j]),
            forall|j: int| 0 <= j < k ==> register_scoped(m, #[trigger] m.registers@[j]),
        decreases m.registers@.len() - k,
    {
        let r = m.registers[k];
        proof {
            assert(m.register_ok(m.registers@[k as int]));
        }
        if !(signal_in_scope(m, r.owner, r.clock) && signal_in_scope(m, r.owner, r.d) && signal_in_scope(m, r.owner, r.q)) {
            return Some(r.owner);
        }
        k = k + 1;
    }
    None
}

/// Renders the model as target text, one module per component in index
/// order, after checking that it is connected and that all logic stays within
/// scope.
pub fn emit(m: &Model) -> (r: Result<String, EmitError>)
    requires
        m.wf(),
    ensures
        r is Ok <==> connected(m) && acyclic(m) && scoped(m),
        r matches Ok(t) ==> t@ == netlist(m, m.components@.len()),
        r matches Err(EmitError::Invalid(e)) ==> !(connected(m) && acyclic(m)) && e.signal_of() < m.signals@.len(),
        r matches Err(EmitError::Invalid(e)) ==> (!(e is CombinationalLoop) ==> crate::validate::violation(
            m,
            e.signal_of() as int,
        ) == Some(e)),
        r matches Err(EmitError::OutOfScope { component }) ==> connected(m) && acyclic(m) && !scoped(m)
            && component < m.components@.len(),
{
    match validate(m) {
        Err(e) => {
            return Err(EmitError::Invalid(e));
        },
        Ok(()) => {},
    }
    match check_scope(m) {
        Some(c) => {
            return Err(EmitError::OutOfScope { component: c });
        },
        None => {},
    }
    let mut out = String::new();
    let mut c: usize = 0;
    while c < m.components.len()
        invariant
            m.wf(),
            c <= m.components@.len(),
            out@ == netlist(m, c as nat),
        decreases m.components@.len() - c,
    {
        push_module(m, c, &mut out);
        c = c + 1;
    }
    Ok(out)
}

} // verus!
