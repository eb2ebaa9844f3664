//! 16.16 fixed-point arithmetic on `i64`.
//!
//! A fixed-point value `v` stands for the real number `v / SCALE`.
//! Division truncates toward zero, as Rust's `/` does, and every
//! executable function here states its result exactly in terms of the
//! spec-level truncated division `tdiv`.

use vstd::arithmetic::div_mod::*;
use vstd::arithmetic::mul::*;
use vstd::prelude::*;

verus! {

/// The fixed-point scale: `SCALE` stands for the real number 1.
pub const SCALE: i64 = 65536;

/// Absolute value of a mathematical integer.
pub open spec fn iabs(a: int) -> int {
    if a < 0 {
        -a
    } else {
        a
    }
}

/// Division truncated toward zero, the behaviour of Rust's `/` on
/// signed integers (`/` on `int` in specifications is Euclidean).
pub open spec fn tdiv(a: int, b: int) -> int {
    if (a < 0) == (b < 0) {
        iabs(a) / iabs(b)
    } else {
        -(iabs(a) / iabs(b))
    }
}

/// Truncated division of `a` by `b`.
pub fn div_trunc(a: i64, b: i64) -> (r: i64)
    requires
        b != 0,
        !(a == i64::MIN && b == -1),
    ensures
        r == tdiv(a as int, b as int),
{
    proof {
        let x = a as int;
        let d = b as int;
        let m = iabs(x);
        let n = iabs(d);
        lemma_div_pos_is_pos(m, n);
        if n >= 2 {
            lemma_div_is_ordered_by_denominator(m, 2, n);
            lemma_div_is_ordered(m, 0x8000_0000_0000_0000, 2);
        } else {
            lemma_div_basics(m);
        }
    }
    let q = a.checked_div(b);
    match q {
        Some(r) => r,
        None => {
            proof {
                assert(false);
            }
            0
        },
    }
}

/// Product of two fixed-point values: `(a * b) / SCALE`, truncated
/// toward zero.
pub fn fx_mul(a: i64, b: i64) -> (r: i64)
    requires
        i64::MIN <= a * b <= i64::MAX,
    ensures
        r == tdiv(a * b, SCALE as int),
{
    let p = a * b;
    div_trunc(p, SCALE)
}

/// Truncated division is exact on exact multiples: `(a * b) / b == a`.
pub proof fn lemma_tdiv_exact(a: int, b: int)
    requires
        b != 0,
    ensures
        tdiv(a * b, b) == a,
{
    let p = a * b;
    lemma_div_by_multiple(iabs(a), iabs(b));
    assert(iabs(p) == iabs(a) * iabs(b)) by (nonlinear_arith)
        requires
            p == a * b,
    ;
    if a == 0 {
        lemma_div_of0(iabs(b));
    } else if a > 0 {
        assert((p < 0) == (b < 0)) by (nonlinear_arith)
            requires
                a > 0,
                b != 0,
                p == a * b,
        ;
    } else {
        assert((p < 0) != (b < 0)) by (nonlinear_arith)
            requires
                a < 0,
                b != 0,
                p == a * b,
        ;
    }
}

/// `r` is the integer square root of `n`.
pub open spec fn is_sqrt(n: int, r: int) -> bool {
    &&& 0 <= r
    &&& r * r <= n
    &&& (r + 1) * (r + 1) > n
}

/// Integer square root by binary search.
pub fn isqrt(n: u128) -> (r: u64)
    requires
        n < 0x4000_0000_0000_0000_0000_0000_0000_0000,
    ensures
        is_sqrt(n as int, r as int),
{
    let mut lo: u64 = 0;
    let mut hi: u64 = 0x8000_0000_0000_0000;
    proof {
        assert((hi + 1) * (hi + 1) > n);
    }
    while lo < hi
        invariant
            lo <= hi,
            hi <= 0x8000_0000_0000_0000,
            (lo as int) * (lo as int) <= n as int,
            ((hi as int) + 1) * ((hi as int) + 1) > n as int,
        decreases hi - lo,
    {
        let mid: u64 = lo + (hi - lo + 1) / 2;
        proof {
            lemma_mul_upper_bound(
                mid as int,
                0x8000_0000_0000_0000,
                mid as int,
                0x8000_0000_0000_0000,
            );
        }
        let sq: u128 = (mid as u128) * (mid as u128);
        if sq <= n {
            lo = mid;
        } else {
            hi = mid - 1;
        }
    }
    lo
}

} // verus!
