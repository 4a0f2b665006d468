//! Signed fixed-point arithmetic at scale `SCALE`, together with the integer
//! square root used for vector magnitudes.
//!
//! A fixed-point value `v` stands for the real number `v / SCALE`. Division
//! always truncates toward zero (the behaviour of Rust's `/` on signed
//! integers), which `tdiv` captures for specifications.

use vstd::prelude::*;

verus! {

/// One unit in fixed-point: the representation of the real number 1.
pub const SCALE: i64 = 65536;

/// Truncated (toward-zero) division of `a` by a positive divisor `b`,
/// as Rust's `/` computes it on signed integers.
pub open spec fn tdiv(a: int, b: int) -> int {
    if a >= 0 {
        a / b
    } else {
        -((-a) / b)
    }
}

/// Truncated division never increases magnitude bounds: if `|a| <= m`
/// then `|tdiv(a, b)| <= m / b`.
pub proof fn lemma_tdiv_bound(a: int, b: int, m: int)
    requires
        b > 0,
        -m <= a <= m,
    ensures
        -(m / b) <= tdiv(a, b) <= m / b,
{
    if a >= 0 {
        vstd::arithmetic::div_mod::lemma_div_is_ordered(a, m, b);
        vstd::arithmetic::div_mod::lemma_div_pos_is_pos(a, b);
    } else {
        vstd::arithmetic::div_mod::lemma_div_is_ordered(-a, m, b);
        vstd::arithmetic::div_mod::lemma_div_pos_is_pos(-a, b);
    }
}

/// Dividing an exact multiple of `b` by `b` recovers the factor.
pub proof fn lemma_tdiv_multiple(k: int, b: int)
    requires
        b > 0,
    ensures
        tdiv(k * b, b) == k,
{
    assert(k * b == b * k) by (nonlinear_arith);
    if k >= 0 {
        vstd::arithmetic::div_mod::lemma_div_multiples_vanish(k, b);
        assert(k * b >= 0) by (nonlinear_arith)
            requires k >= 0 && b > 0;
    } else {
        vstd::arithmetic::div_mod::lemma_div_multiples_vanish(-k, b);
        assert(k * b < 0) by (nonlinear_arith)
            requires k < 0 && b > 0;
        assert(-(k * b) == b * (-k)) by (nonlinear_arith);
    }
}

/// Truncated division of `a` by a positive `b`, verified against `tdiv`.
pub fn div_fixed(a: i64, b: i64) -> (r: i64)
    requires
        b > 0,
    ensures
        r == tdiv(a as int, b as int),
{
    proof {
        lemma_tdiv_bound(a as int, b as int, if a >= 0 { a as int } else { -(a as int) });
    }
    a / b
}

/// The floor of the square root of `n`.
pub open spec fn sqrt_floor(n: nat) -> nat
    decreases n,
{
    if n == 0 {
        0
    } else {
        let r: nat = sqrt_floor((n - 1) as nat);
        if (r + 1) * (r + 1) <= n {
            r + 1
        } else {
            r
        }
    }
}

/// `sqrt_floor(n)` is the greatest integer whose square does not exceed `n`.
pub proof fn lemma_sqrt_floor_bounds(n: nat)
    ensures
        sqrt_floor(n) * sqrt_floor(n) <= n,
        n < (sqrt_floor(n) + 1) * (sqrt_floor(n) + 1),
    decreases n,
{
    if n > 0 {
        lemma_sqrt_floor_bounds((n - 1) as nat);
        let r: nat = sqrt_floor((n - 1) as nat);
        assert(r * r <= n - 1);
        assert(n - 1 < (r + 1) * (r + 1));
        if (r + 1) * (r + 1) <= n {
            assert(sqrt_floor(n) == r + 1);
            assert((r + 1) * (r + 1) < (r + 2) * (r + 2)) by (nonlinear_arith)
                requires r >= 0;
            assert(sqrt_floor(n) * sqrt_floor(n) <= n);
            assert(n < (sqrt_floor(n) + 1) * (sqrt_floor(n) + 1));
        } else {
            assert(sqrt_floor(n) == r);
            assert(sqrt_floor(n) * sqrt_floor(n) <= n);
            assert(n < (sqrt_floor(n) + 1) * (sqrt_floor(n) + 1));
        }
    } else {
        assert(sqrt_floor(n) == 0);
        assert(n < (sqrt_floor(n) + 1) * (sqrt_floor(n) + 1)) by (nonlinear_arith)
            requires n == 0 && sqrt_floor(n) == 0;
    }
}

/// Any `r` whose square brackets `n` is `sqrt_floor(n)`.
pub proof fn lemma_sqrt_floor_unique(n: nat, r: nat)
    requires
        r * r <= n,
        n < (r + 1) * (r + 1),
    ensures
        r == sqrt_floor(n),
{
    lemma_sqrt_floor_bounds(n);
    let s: nat = sqrt_floor(n);
    if r < s {
        assert((r + 1) * (r + 1) <= s * s) by (nonlinear_arith)
            requires r + 1 <= s;
    } else if s < r {
        assert((s + 1) * (s + 1) <= r * r) by (nonlinear_arith)
            requires s + 1 <= r;
    }
}

/// Integer square root by binary search.
pub fn isqrt(n: u64) -> (r: u64)
    ensures
        r == sqrt_floor(n as nat),
{
    let mut lo: u64 = 0;
    let mut hi: u64 = 4294967296;
    while lo + 1 < hi
        invariant
            lo < hi,
            hi <= 4294967296,
            (lo as int) * (lo as int) <= n as int,
            (n as int) < (hi as int) * (hi as int),
        decreases hi - lo,
    {
        let mid: u64 = lo + (hi - lo) / 2;
        assert((mid as int) * (mid as int) <= 0xFFFF_FFFE_0000_0001) by (nonlinear_arith)
            requires mid <= 0xFFFF_FFFFu64;
        if mid * mid <= n {
            lo = mid;
        } else {
            hi = mid;
        }
    }
    proof {
        lemma_sqrt_floor_unique(n as nat, lo as nat);
    }
    lo
}

} // verus!
