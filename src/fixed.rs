//! Integer helpers for fixed-point arithmetic: floor division and the
//! integer square root.
use vstd::prelude::*;

verus! {

/// `r` is the integer square root of `n`: the largest natural number whose
/// square does not exceed `n`.
pub open spec fn is_root(n: int, r: int) -> bool {
    0 <= r && r * r <= n && n < (r + 1) * (r + 1)
}

/// The integer square root of a natural number.
pub open spec fn sqrt_floor(n: nat) -> nat {
    choose|r: nat| is_root(n as int, r as int)
}

proof fn lemma_root_unique(n: int, a: int, b: int)
    requires
        is_root(n, a),
        is_root(n, b),
    ensures
        a == b,
{
    if a < b {
        assert((a + 1) * (a + 1) <= b * b) by (nonlinear_arith)
            requires
                0 <= a,
                a + 1 <= b,
        ;
    } else if b < a {
        assert((b + 1) * (b + 1) <= a * a) by (nonlinear_arith)
            requires
                0 <= b,
                b + 1 <= a,
        ;
    }
}

/// Any root found is the one that `sqrt_floor` names.
pub proof fn lemma_sqrt_floor(n: nat, r: nat)
    requires
        is_root(n as int, r as int),
    ensures
        sqrt_floor(n) == r,
{
    lemma_root_unique(n as int, sqrt_floor(n) as int, r as int);
}

/// Largest bound on the argument of `isqrt`.
pub const ROOT_ARG_LIMIT: u128 = 0x10_0000_0000_0000_0000_0000_0000;

/// Integer square root by bisection.
pub fn isqrt(n: u128) -> (r: u128)
    requires
        n < ROOT_ARG_LIMIT,
    ensures
        r == sqrt_floor(n as nat),
        r < 0x4_0000_0000_0000,
{
    let mut lo: u128 = 0;
    let mut hi: u128 = 0x4_0000_0000_0000;
    assert(hi * hi == ROOT_ARG_LIMIT);
    while hi - lo > 1
        invariant
            lo < hi <= 0x4_0000_0000_0000,
            lo * lo <= n,
            n < hi * hi,
        decreases hi - lo,
    {
        let mid: u128 = lo + (hi - lo) / 2;
        assert(mid * mid <= 0x4_0000_0000_0000 * 0x4_0000_0000_0000) by (nonlinear_arith)
            requires
                mid < 0x4_0000_0000_0000,
        ;
        if mid * mid <= n {
            lo = mid;
        } else {
            hi = mid;
        }
    }
    proof {
        assert(hi == lo + 1);
        lemma_sqrt_floor(n as nat, lo as nat);
    }
    lo
}

/// Division of a signed numerator by a positive divisor, rounding down.
pub fn floor_div(a: i128, d: i128) -> (q: i128)
    requires
        d > 0,
        a > i128::MIN,
    ensures
        q == a / d,
{
    if a >= 0 {
        let q: i128 = ((a as u128) / (d as u128)) as i128;
        q
    } else {
        let b: u128 = (-a) as u128;
        let c: u128 = b / (d as u128);
        let m: u128 = b % (d as u128);
        proof {
            vstd::arithmetic::div_mod::lemma_fundamental_div_mod(b as int, d as int);
            let qi: int = if m == 0 { -(c as int) } else { -(c as int) - 1 };
            let ri: int = if m == 0 { 0 } else { d - m };
            assert(a == qi * d + ri) by (nonlinear_arith)
                requires
                    b == d * c + m,
                    a == -b,
                    qi == (if m == 0 { -(c as int) } else { -(c as int) - 1 }),
                    ri == (if m == 0 { 0 } else { d - m }),
            ;
            vstd::arithmetic::div_mod::lemma_fundamental_div_mod_converse(a as int, d as int, qi, ri);
        }
        if m == 0 {
            -(c as i128)
        } else {
            -(c as i128) - 1
        }
    }
}

} // verus!
