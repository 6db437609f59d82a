use vstd::prelude::*;
use crate::bits::{fits, lemma_pow2_bounded, lemma_pow2_positive, modulus, pow2, truncate, truncate_to, MAX_WIDTH};

verus! {

/// A combinational expression over signal values. Every operator works modulo
/// `2^w`, where `w` is the width of the signal the expression drives.
#[derive(Debug)]
pub enum Expr {
    Const(u64),
    Sig(usize),
    Not(Box<Expr>),
    And(Box<Expr>, Box<Expr>),
    Or(Box<Expr>, Box<Expr>),
    Xor(Box<Expr>, Box<Expr>),
    Add(Box<Expr>, Box<Expr>),
    Sub(Box<Expr>, Box<Expr>),
    /// One when both sides are equal, else zero.
    Eq(Box<Expr>, Box<Expr>),
    /// The second operand when the first is non-zero, else the third.
    Mux(Box<Expr>, Box<Expr>, Box<Expr>),
    /// The first operand shifted up by the second (at most the width).
    Shl(Box<Expr>, Box<Expr>),
    /// The first operand shifted down by the second (at most the width).
    Shr(Box<Expr>, Box<Expr>),
}

/// A shift amount, capped at the width.
pub open spec fn shift_amount(x: u64, w: nat) -> nat {
    if x > w { w } else { x as nat }
}

/// The value of `e` at width `w` when signal `i` holds `v[i]`.
pub open spec fn eval(e: Expr, v: Seq<u64>, w: nat) -> u64
    decreases e,
{
    match e {
        Expr::Const(c) => truncate(c as int, w),
        Expr::Sig(i) => truncate(v[i as int] as int, w),
        Expr::Not(a) => truncate(pow2(w) - 1 - eval(*a, v, w), w),
        Expr::And(a, b) => truncate((eval(*a, v, w) & eval(*b, v, w)) as int, w),
        Expr::Or(a, b) => truncate((eval(*a, v, w) | eval(*b, v, w)) as int, w),
        Expr::Xor(a, b) => truncate((eval(*a, v, w) ^ eval(*b, v, w)) as int, w),
        Expr::Add(a, b) => truncate(eval(*a, v, w) + eval(*b, v, w), w),
        Expr::Sub(a, b) => truncate(eval(*a, v, w) + pow2(w) - eval(*b, v, w), w),
        Expr::Eq(a, b) => truncate(if eval(*a, v, w) == eval(*b, v, w) { 1 } else { 0 }, w),
        Expr::Mux(s, a, b) => if eval(*s, v, w) != 0 { eval(*a, v, w) } else { eval(*b, v, w) },
        Expr::Shl(a, b) => truncate(eval(*a, v, w) * pow2(shift_amount(eval(*b, v, w), w)), w),
        Expr::Shr(a, b) => (eval(*a, v, w) as int / pow2(shift_amount(eval(*b, v, w), w)) as int) as u64,
    }
}

/// `e` reads signal `s`.
pub open spec fn reads(e: Expr, s: int) -> bool
    decreases e,
{
    match e {
        Expr::Const(_) => false,
        Expr::Sig(i) => i == s,
        Expr::Not(a) => reads(*a, s),
        Expr::And(a, b) => reads(*a, s) || reads(*b, s),
        Expr::Or(a, b) => reads(*a, s) || reads(*b, s),
        Expr::Xor(a, b) => reads(*a, s) || reads(*b, s),
        Expr::Add(a, b) => reads(*a, s) || reads(*b, s),
        Expr::Sub(a, b) => reads(*a, s) || reads(*b, s),
        Expr::Eq(a, b) => reads(*a, s) || reads(*b, s),
        Expr::Mux(c, a, b) => reads(*c, s) || reads(*a, s) || reads(*b, s),
        Expr::Shl(a, b) => reads(*a, s) || reads(*b, s),
        Expr::Shr(a, b) => reads(*a, s) || reads(*b, s),
    }
}

/// Every signal that `e` reads is one of the first `n`.
pub open spec fn reads_within(e: Expr, n: nat) -> bool
    decreases e,
{
    match e {
        Expr::Const(_) => true,
        Expr::Sig(i) => i < n,
        Expr::Not(a) => reads_within(*a, n),
        Expr::And(a, b) => reads_within(*a, n) && reads_within(*b, n),
        Expr::Or(a, b) => reads_within(*a, n) && reads_within(*b, n),
        Expr::Xor(a, b) => reads_within(*a, n) && reads_within(*b, n),
        Expr::Add(a, b) => reads_within(*a, n) && reads_within(*b, n),
        Expr::Sub(a, b) => reads_within(*a, n) && reads_within(*b, n),
        Expr::Eq(a, b) => reads_within(*a, n) && reads_within(*b, n),
        Expr::Mux(c, a, b) => reads_within(*c, n) && reads_within(*a, n) && reads_within(*b, n),
        Expr::Shl(a, b) => reads_within(*a, n) && reads_within(*b, n),
        Expr::Shr(a, b) => reads_within(*a, n) && reads_within(*b, n),
    }
}

pub proof fn lemma_reads_within(e: Expr, n: nat, s: int)
    requires
        reads_within(e, n),
        reads(e, s),
    ensures
        0 <= s < n,
    decreases e,
{
    match e {
        Expr::Const(_) => {},
        Expr::Sig(_) => {},
        Expr::Not(a) => lemma_reads_within(*a, n, s),
        Expr::And(a, b) => if reads(*a, s) { lemma_reads_within(*a, n, s) } else { lemma_reads_within(*b, n, s) },
        Expr::Or(a, b) => if reads(*a, s) { lemma_reads_within(*a, n, s) } else { lemma_reads_within(*b, n, s) },
        Expr::Xor(a, b) => if reads(*a, s) { lemma_reads_within(*a, n, s) } else { lemma_reads_within(*b, n, s) },
        Expr::Add(a, b) => if reads(*a, s) { lemma_reads_within(*a, n, s) } else { lemma_reads_within(*b, n, s) },
        Expr::Sub(a, b) => if reads(*a, s) { lemma_reads_within(*a, n, s) } else { lemma_reads_within(*b, n, s) },
        Expr::Eq(a, b) => if reads(*a, s) { lemma_reads_within(*a, n, s) } else { lemma_reads_within(*b, n, s) },
        Expr::Mux(c, a, b) => if reads(*c, s) {
            lemma_reads_within(*c, n, s)
        } else if reads(*a, s) {
            lemma_reads_within(*a, n, s)
        } else {
            lemma_reads_within(*b, n, s)
        },
        Expr::Shl(a, b) => if reads(*a, s) { lemma_reads_within(*a, n, s) } else { lemma_reads_within(*b, n, s) },
        Expr::Shr(a, b) => if reads(*a, s) { lemma_reads_within(*a, n, s) } else { lemma_reads_within(*b, n, s) },
    }
}

pub proof fn lemma_reads_within_grows(e: Expr, n: nat, m: nat)
    requires
        reads_within(e, n),
        n <= m,
    ensures
        reads_within(e, m),
    decreases e,
{
    match e {
        Expr::Const(_) => {},
        Expr::Sig(_) => {},
        Expr::Not(a) => lemma_reads_within_grows(*a, n, m),
        Expr::And(a, b) => { lemma_reads_within_grows(*a, n, m); lemma_reads_within_grows(*b, n, m); },
        Expr::Or(a, b) => { lemma_reads_within_grows(*a, n, m); lemma_reads_within_grows(*b, n, m); },
        Expr::Xor(a, b) => { lemma_reads_within_grows(*a, n, m); lemma_reads_within_grows(*b, n, m); },
        Expr::Add(a, b) => { lemma_reads_within_grows(*a, n, m); lemma_reads_within_grows(*b, n, m); },
        Expr::Sub(a, b) => { lemma_reads_within_grows(*a, n, m); lemma_reads_within_grows(*b, n, m); },
        Expr::Eq(a, b) => { lemma_reads_within_grows(*a, n, m); lemma_reads_within_grows(*b, n, m); },
        Expr::Mux(c, a, b) => {
            lemma_reads_within_grows(*c, n, m);
            lemma_reads_within_grows(*a, n, m);
            lemma_reads_within_grows(*b, n, m);
        },
        Expr::Shl(a, b) => { lemma_reads_within_grows(*a, n, m); lemma_reads_within_grows(*b, n, m); },
        Expr::Shr(a, b) => { lemma_reads_within_grows(*a, n, m); lemma_reads_within_grows(*b, n, m); },
    }
}

/// The value of an expression fits its width.
pub proof fn lemma_eval_fits(e: Expr, v: Seq<u64>, w: nat)
    requires
        w <= 64,
    ensures
        fits(eval(e, v, w) as int, w),
    decreases e,
{
    lemma_pow2_bounded(w);
    match e {
        Expr::Mux(s, a, b) => {
            lemma_eval_fits(*a, v, w);
            lemma_eval_fits(*b, v, w);
        },
        Expr::Shr(a, b) => {
            lemma_eval_fits(*a, v, w);
            lemma_pow2_positive(shift_amount(eval(*b, v, w), w));
            assert(eval(*a, v, w) as int / pow2(shift_amount(eval(*b, v, w), w)) as int <= eval(*a, v, w) as int) by (nonlinear_arith)
                requires
                    pow2(shift_amount(eval(*b, v, w), w)) >= 1,
            ;
        },
        _ => {},
    }
}

/// An expression's value depends only on the signals it reads.
pub proof fn lemma_eval_frame(e: Expr, v1: Seq<u64>, v2: Seq<u64>, w: nat)
    requires
        forall|s: int| reads(e, s) ==> v1[s] == v2[s],
    ensures
        eval(e, v1, w) == eval(e, v2, w),
    decreases e,
{
    match e {
        Expr::Const(_) => {},
        Expr::Sig(_) => {},
        Expr::Not(a) => lemma_eval_frame(*a, v1, v2, w),
        Expr::And(a, b) => {
            lemma_eval_frame(*a, v1, v2, w);
            lemma_eval_frame(*b, v1, v2, w);
        },
        Expr::Or(a, b) => {
            lemma_eval_frame(*a, v1, v2, w);
            lemma_eval_frame(*b, v1, v2, w);
        },
        Expr::Xor(a, b) => {
            lemma_eval_frame(*a, v1, v2, w);
            lemma_eval_frame(*b, v1, v2, w);
        },
        Expr::Add(a, b) => {
            lemma_eval_frame(*a, v1, v2, w);
            lemma_eval_frame(*b, v1, v2, w);
        },
        Expr::Sub(a, b) => {
            lemma_eval_frame(*a, v1, v2, w);
            lemma_eval_frame(*b, v1, v2, w);
        },
        Expr::Eq(a, b) => {
            lemma_eval_frame(*a, v1, v2, w);
            lemma_eval_frame(*b, v1, v2, w);
        },
        Expr::Mux(c, a, b) => {
            lemma_eval_frame(*c, v1, v2, w);
            lemma_eval_frame(*a, v1, v2, w);
            lemma_eval_frame(*b, v1, v2, w);
        },
        Expr::Shl(a, b) => {
            lemma_eval_frame(*a, v1, v2, w);
            lemma_eval_frame(*b, v1, v2, w);
        },
        Expr::Shr(a, b) => {
            lemma_eval_frame(*a, v1, v2, w);
            lemma_eval_frame(*b, v1, v2, w);
        },
    }
}

impl Expr {
    /// A copy of this expression.
    pub fn copy(&self) -> (r: Expr)
        ensures
            r == *self,
        decreases self,
    {
        match self {
            Expr::Const(c) => Expr::Const(*c),
            Expr::Sig(i) => Expr::Sig(*i),
            Expr::Not(a) => Expr::Not(Box::new(a.copy())),
            Expr::And(a, b) => Expr::And(Box::new(a.copy()), Box::new(b.copy())),
            Expr::Or(a, b) => Expr::Or(Box::new(a.copy()), Box::new(b.copy())),
            Expr::Xor(a, b) => Expr::Xor(Box::new(a.copy()), Box::new(b.copy())),
            Expr::Add(a, b) => Expr::Add(Box::new(a.copy()), Box::new(b.copy())),
            Expr::Sub(a, b) => Expr::Sub(Box::new(a.copy()), Box::new(b.copy())),
            Expr::Eq(a, b) => Expr::Eq(Box::new(a.copy()), Box::new(b.copy())),
            Expr::Mux(c, a, b) => Expr::Mux(Box::new(c.copy()), Box::new(a.copy()), Box::new(b.copy())),
            Expr::Shl(a, b) => Expr::Shl(Box::new(a.copy()), Box::new(b.copy())),
            Expr::Shr(a, b) => Expr::Shr(Box::new(a.copy()), Box::new(b.copy())),
        }
    }
}

/// Evaluates `e` at width `w` over the signal values `v`.
pub fn eval_expr(e: &Expr, v: &Vec<u64>, w: u32) -> (r: u64)
    requires
        w <= MAX_WIDTH,
        reads_within(*e, v.len() as nat),
    ensures
        r == eval(*e, v@, w as nat),
    decreases e,
{
    proof {
        lemma_pow2_bounded(w as nat);
    }
    match e {
        Expr::Const(c) => truncate_to(*c as u128, w),
        Expr::Sig(i) => truncate_to(v[*i] as u128, w),
        Expr::Not(a) => {
            let x = eval_expr(a, v, w);
            proof {
                lemma_eval_fits(**a, v@, w as nat);
            }
            truncate_to(modulus(w) - 1 - x as u128, w)
        },
        Expr::And(a, b) => {
            let x = eval_expr(a, v, w);
            let y = eval_expr(b, v, w);
            truncate_to((x & y) as u128, w)
        },
        Expr::Or(a, b) => {
            let x = eval_expr(a, v, w);
            let y = eval_expr(b, v, w);
            truncate_to((x | y) as u128, w)
        },
        Expr::Xor(a, b) => {
            let x = eval_expr(a, v, w);
            let y = eval_expr(b, v, w);
            truncate_to((x ^ y) as u128, w)
        },
        Expr::Add(a, b) => {
            let x = eval_expr(a, v, w);
            let y = eval_expr(b, v, w);
            truncate_to(x as u128 + y as u128, w)
        },
        Expr::Sub(a, b) => {
            let x = eval_expr(a, v, w);
            let y = eval_expr(b, v, w);
            proof {
                lemma_eval_fits(**b, v@, w as nat);
            }
            truncate_to(x as u128 + modulus(w) - y as u128, w)
        },
        Expr::Eq(a, b) => {
            let x = eval_expr(a, v, w);
            let y = eval_expr(b, v, w);
            truncate_to(if x == y { 1 } else { 0 }, w)
        },
        Expr::Mux(s, a, b) => {
            let c = eval_expr(s, v, w);
            if c != 0 {
                eval_expr(a, v, w)
            } else {
                eval_expr(b, v, w)
            }
        },
        Expr::Shl(a, b) => {
            let x = eval_expr(a, v, w);
            let y = eval_expr(b, v, w);
            let k: u32 = if y > w as u64 { w } else { y as u32 };
            let m = modulus(k);
            proof {
                lemma_pow2_bounded(k as nat);
                assert((x as int) * (m as int) < 0x1_0000_0000_0000_0000 * 0x1_0000_0000_0000_0000) by (nonlinear_arith)
                    requires
                        (x as int) < 0x1_0000_0000_0000_0000,
                        (m as int) <= 0x1_0000_0000_0000_0000,
                ;
            }
            truncate_to(x as u128 * m, w)
        },
        Expr::Shr(a, b) => {
            let x = eval_expr(a, v, w);
            let y = eval_expr(b, v, w);
            let k: u32 = if y > w as u64 { w } else { y as u32 };
            let m = modulus(k);
            proof {
                lemma_pow2_bounded(k as nat);
                lemma_eval_fits(*e, v@, w as nat);
            }
            (x as u128 / m) as u64
        },
    }
}

} // verus!
