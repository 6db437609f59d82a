use vstd::prelude::*;

verus! {

/// The widest bit vector a signal can carry.
pub const MAX_WIDTH: u32 = 64;

/// Two to the power `w`.
pub open spec fn pow2(w: nat) -> nat
    decreases w,
{
    if w == 0 {
        1
    } else {
        2 * pow2((w - 1) as nat)
    }
}

/// A width a signal may have.
pub open spec fn valid_width(w: nat) -> bool {
    1 <= w <= MAX_WIDTH
}

/// `v` is representable in `w` bits.
pub open spec fn fits(v: int, w: nat) -> bool {
    0 <= v < pow2(w)
}

/// `v` reduced to its low `w` bits.
pub open spec fn truncate(v: int, w: nat) -> u64 {
    (v % (pow2(w) as int)) as u64
}

pub proof fn lemma_pow2_positive(w: nat)
    ensures
        pow2(w) >= 1,
    decreases w,
{
    if w > 0 {
        lemma_pow2_positive((w - 1) as nat);
    }
}

pub proof fn lemma_pow2_monotone(a: nat, b: nat)
    requires
        a <= b,
    ensures
        pow2(a) <= pow2(b),
    decreases b,
{
    if a < b {
        lemma_pow2_monotone(a, (b - 1) as nat);
        lemma_pow2_positive((b - 1) as nat);
    }
}

pub proof fn lemma_pow2_64()
    ensures
        pow2(64) == 0x1_0000_0000_0000_0000,
{
    reveal_with_fuel(pow2, 65);
}

/// Every width up to the maximum has a modulus that fits in 65 bits, and its
/// truncations fit in a `u64`.
pub proof fn lemma_pow2_bounded(w: nat)
    requires
        w <= 64,
    ensures
        1 <= pow2(w) <= 0x1_0000_0000_0000_0000,
        forall|v: int| #![trigger truncate(v, w)] fits(v % (pow2(w) as int), w),
{
    lemma_pow2_monotone(w, 64);
    lemma_pow2_64();
    lemma_pow2_positive(w);
}

/// The number of values of a `w`-bit vector, `2^w`.
pub fn modulus(w: u32) -> (r: u128)
    requires
        w <= MAX_WIDTH,
    ensures
        r == pow2(w as nat),
{
    let mut r: u128 = 1;
    let mut i: u32 = 0;
    while i < w
        invariant
            i <= w <= 64,
            r == pow2(i as nat),
        decreases w - i,
    {
        proof {
            lemma_pow2_bounded(i as nat);
        }
        r = r * 2;
        i = i + 1;
    }
    r
}

/// Reduces `v` to its low `w` bits.
pub fn truncate_to(v: u128, w: u32) -> (r: u64)
    requires
        w <= MAX_WIDTH,
    ensures
        r == truncate(v as int, w as nat),
        fits(r as int, w as nat),
{
    let m = modulus(w);
    proof {
        lemma_pow2_bounded(w as nat);
    }
    (v % m) as u64
}

} // verus!
