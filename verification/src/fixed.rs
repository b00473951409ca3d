//! Fixed-point scalar arithmetic.
//!
//! Every scalar in the renderer is a binary fixed-point number: an `i128`
//! holding the real value times `FX_ONE` (2^16). Multiplication, division
//! and square root truncate toward zero, and each executable operation has
//! an exact contract in terms of the spec-level functions below.

use vstd::prelude::*;

verus! {

/// The fixed-point unit: the representation of the real number 1.
pub const FX_ONE: i128 = 65536;

/// Sentinel standing for an unbounded interval end, far beyond any
/// ray parameter the renderer can produce (2^60 in fixed units).
pub const FX_INF: i128 = 1152921504606846976;

/// Largest product magnitude (2^126) the fixed-point helpers accept;
/// keeps every intermediate inside `i128`.
pub const FX_LIM: i128 = 85070591730234615865843651857942052864;

pub open spec fn abs_i(a: int) -> int {
    if a >= 0 {
        a
    } else {
        -a
    }
}

/// Division truncating toward zero (the behaviour of `/` on machine
/// integers), expressed through Euclidean division on `int`.
pub open spec fn tdiv(a: int, b: int) -> int
    recommends
        b > 0,
{
    if a >= 0 {
        a / b
    } else {
        -((-a) / b)
    }
}

/// The value of a fixed-point product.
pub open spec fn fx_mul_s(a: int, b: int) -> int {
    tdiv(a * b, FX_ONE as int)
}

/// The value of a fixed-point quotient.
pub open spec fn fx_div_s(a: int, b: int) -> int {
    tdiv(a * (FX_ONE as int), b)
}

/// Integer square root, rounded down.
pub open spec fn isqrt_s(n: int) -> int
    recommends
        n >= 0,
    decreases n,
{
    if n <= 0 {
        0
    } else {
        let r = isqrt_s(n - 1);
        if (r + 1) * (r + 1) <= n {
            r + 1
        } else {
            r
        }
    }
}

/// The value of a fixed-point square root.
pub open spec fn fx_sqrt_s(x: int) -> int {
    isqrt_s(x * (FX_ONE as int))
}

pub proof fn lemma_tdiv_facts(a: int, b: int)
    requires
        b >= 1,
    ensures
        abs_i(tdiv(a, b)) * b <= abs_i(a),
        abs_i(tdiv(a, b)) <= abs_i(a),
        a >= 0 ==> tdiv(a, b) >= 0,
        a <= 0 ==> tdiv(a, b) <= 0,
{
    let m = abs_i(a);
    vstd::arithmetic::div_mod::lemma_fundamental_div_mod(m, b);
    let q = m / b;
    vstd::arithmetic::mul::lemma_mul_is_commutative(b, q);
    assert(q * b == m - m % b);
    assert(0 <= m % b < b);
    assert(q >= 0) by (nonlinear_arith)
        requires
            q * b == m - m % b,
            0 <= m % b < b,
            m >= 0,
            b >= 1,
    ;
    assert(q <= q * b) by (nonlinear_arith)
        requires
            q >= 0,
            b >= 1,
    ;
    if a >= 0 {
        assert(tdiv(a, b) == q);
    } else {
        assert(tdiv(a, b) == -q);
        assert(abs_i(tdiv(a, b)) == q);
    }
}

pub proof fn lemma_tdiv_mono(a1: int, a2: int, b: int)
    requires
        b >= 1,
        a1 <= a2,
    ensures
        tdiv(a1, b) <= tdiv(a2, b),
{
    lemma_tdiv_facts(a1, b);
    lemma_tdiv_facts(a2, b);
    if a1 >= 0 {
        vstd::arithmetic::div_mod::lemma_div_is_ordered(a1, a2, b);
    } else if a2 <= 0 {
        vstd::arithmetic::div_mod::lemma_div_is_ordered(-a2, -a1, b);
    }
}

/// Multiplying by `b` and then truncating the division by `b` gives back the
/// original value.
pub proof fn lemma_tdiv_cancel(x: int, b: int)
    requires
        b >= 1,
    ensures
        tdiv(x * b, b) == x,
{
    if x >= 0 {
        assert(x * b >= 0) by (nonlinear_arith)
            requires
                x >= 0,
                b >= 1,
        ;
        vstd::arithmetic::div_mod::lemma_div_multiples_vanish(x, b);
        vstd::arithmetic::mul::lemma_mul_is_commutative(b, x);
    } else {
        assert(x * b <= 0) by (nonlinear_arith)
            requires
                x <= 0,
                b >= 1,
        ;
        assert(-(x * b) == b * (-x)) by (nonlinear_arith);
        vstd::arithmetic::div_mod::lemma_div_multiples_vanish(-x, b);
    }
}

pub proof fn lemma_tdiv_neg(a: int, b: int)
    requires
        b >= 1,
    ensures
        tdiv(-a, b) == -tdiv(a, b),
{
    if a == 0 {
        vstd::arithmetic::div_mod::lemma_div_of0(b);
    }
}

pub proof fn lemma_mul_abs_le(a: int, b: int, bound_a: int, bound_b: int)
    requires
        abs_i(a) <= bound_a,
        abs_i(b) <= bound_b,
    ensures
        abs_i(a * b) <= bound_a * bound_b,
{
    assert(abs_i(a * b) <= bound_a * bound_b) by (nonlinear_arith)
        requires
            abs_i(a) <= bound_a,
            abs_i(b) <= bound_b,
    ;
}

pub proof fn lemma_fx_mul_bound(a: int, b: int, bound_a: int, bound_b: int)
    requires
        abs_i(a) <= bound_a,
        abs_i(b) <= bound_b,
    ensures
        abs_i(fx_mul_s(a, b)) * (FX_ONE as int) <= bound_a * bound_b,
        abs_i(fx_mul_s(a, b)) <= bound_a * bound_b,
{
    lemma_mul_abs_le(a, b, bound_a, bound_b);
    lemma_tdiv_facts(a * b, FX_ONE as int);
    assert(abs_i(tdiv(a * b, FX_ONE as int)) * (FX_ONE as int) <= bound_a * bound_b);
    assert(abs_i(fx_mul_s(a, b)) <= abs_i(fx_mul_s(a, b)) * (FX_ONE as int)) by (nonlinear_arith)
        requires
            abs_i(fx_mul_s(a, b)) >= 0,
            FX_ONE as int >= 1,
    ;
}

pub proof fn lemma_fx_div_bound(a: int, b: int, bound_a: int)
    requires
        b >= 1,
        abs_i(a) <= bound_a,
    ensures
        abs_i(fx_div_s(a, b)) * b <= bound_a * (FX_ONE as int),
        abs_i(fx_div_s(a, b)) <= bound_a * (FX_ONE as int),
{
    lemma_mul_abs_le(a, FX_ONE as int, bound_a, FX_ONE as int);
    lemma_tdiv_facts(a * (FX_ONE as int), b);
    assert(abs_i(fx_div_s(a, b)) <= abs_i(fx_div_s(a, b)) * b) by (nonlinear_arith)
        requires
            abs_i(fx_div_s(a, b)) >= 0,
            b >= 1,
    ;
}

/// The product of two values in `[0, 1]` stays in `[0, 1]`.
pub proof fn lemma_unit_interval_mul(a: int, b: int)
    requires
        0 <= a <= FX_ONE as int,
        0 <= b <= FX_ONE as int,
    ensures
        0 <= fx_mul_s(a, b) <= b,
        fx_mul_s(a, b) <= FX_ONE as int,
{
    assert(0 <= a * b <= b * 65536) by (nonlinear_arith)
        requires
            0 <= a <= 65536,
            0 <= b,
    ;
    lemma_tdiv_facts(a * b, FX_ONE as int);
    lemma_tdiv_mono(a * b, b * 65536, FX_ONE as int);
    lemma_tdiv_cancel(b, 65536);
}

/// One is the multiplicative unit of the fixed-point product.
pub proof fn lemma_fx_mul_one(b: int)
    ensures
        fx_mul_s(FX_ONE as int, b) == b,
{
    lemma_tdiv_cancel(b, FX_ONE as int);
    assert((FX_ONE as int) * b == b * (FX_ONE as int)) by (nonlinear_arith);
}

pub proof fn lemma_square_le(x: int, y: int)
    requires
        x >= 0,
        y >= 0,
        x * x <= y * y,
    ensures
        x <= y,
{
    assert(x <= y) by (nonlinear_arith)
        requires
            x >= 0,
            y >= 0,
            x * x <= y * y,
    ;
}

pub proof fn lemma_isqrt_s(n: int)
    requires
        n >= 0,
    ensures
        isqrt_s(n) >= 0,
        isqrt_s(n) * isqrt_s(n) <= n,
        n < (isqrt_s(n) + 1) * (isqrt_s(n) + 1),
    decreases n,
{
    if n > 0 {
        lemma_isqrt_s(n - 1);
        let r = isqrt_s(n - 1);
        if (r + 1) * (r + 1) <= n {
            assert(n <= (r + 1) * (r + 1)) by (nonlinear_arith)
                requires
                    n - 1 < (r + 1) * (r + 1),
            ;
            assert((r + 1) * (r + 1) < (r + 2) * (r + 2)) by (nonlinear_arith)
                requires
                    r >= 0,
            ;
        }
    }
}

pub proof fn lemma_isqrt_unique(n: int, x: int)
    requires
        n >= 0,
        x >= 0,
        x * x <= n,
        n < (x + 1) * (x + 1),
    ensures
        x == isqrt_s(n),
{
    lemma_isqrt_s(n);
    let r = isqrt_s(n);
    if x < r {
        assert((x + 1) * (x + 1) <= r * r) by (nonlinear_arith)
            requires
                0 <= x,
                x < r,
        ;
    }
    if r < x {
        assert((r + 1) * (r + 1) <= x * x) by (nonlinear_arith)
            requires
                0 <= r,
                r < x,
        ;
    }
}

fn isqrt(n: i128) -> (r: i128)
    requires
        0 <= n <= FX_LIM,
    ensures
        r == isqrt_s(n as int),
        0 <= r <= 9223372036854775808,
        r * r <= n,
        n < (r + 1) * (r + 1),
{
    let mut lo: i128 = 0;
    let mut hi: i128 = 9223372036854775809;
    assert(n < hi * hi) by (nonlinear_arith)
        requires
            n <= FX_LIM,
            hi == 9223372036854775809,
            FX_LIM == 85070591730234615865843651857942052864,
    ;
    while lo + 1 < hi
        invariant
            0 <= lo < hi <= 9223372036854775809,
            lo * lo <= n <= FX_LIM,
            n < hi * hi,
        decreases hi - lo,
    {
        let mid = lo + (hi - lo) / 2;
        assert(lo < mid < hi);
        assert(mid * mid <= 9223372036854775808 * 9223372036854775808) by (nonlinear_arith)
            requires
                0 <= mid <= 9223372036854775808,
        ;
        if mid * mid <= n {
            lo = mid;
        } else {
            hi = mid;
        }
    }
    proof {
        lemma_isqrt_unique(n as int, lo as int);
    }
    lo
}

pub fn fx_mul(a: i128, b: i128) -> (r: i128)
    requires
        abs_i(a as int * b as int) <= FX_LIM as int,
    ensures
        r == fx_mul_s(a as int, b as int),
{
    let p = a * b;
    proof {
        lemma_tdiv_facts(p as int, FX_ONE as int);
    }
    p / FX_ONE
}

pub fn fx_div(a: i128, b: i128) -> (r: i128)
    requires
        b > 0,
        abs_i(a as int) * (FX_ONE as int) <= FX_LIM as int,
    ensures
        r == fx_div_s(a as int, b as int),
{
    proof {
        lemma_mul_abs_le(a as int, FX_ONE as int, abs_i(a as int), FX_ONE as int);
        lemma_tdiv_facts(a as int * FX_ONE as int, b as int);
    }
    let p = a * FX_ONE;
    p / b
}

pub fn fx_sqrt(x: i128) -> (r: i128)
    requires
        0 <= x,
        x * (FX_ONE as int) <= FX_LIM as int,
    ensures
        r == fx_sqrt_s(x as int),
        0 <= r,
        r * r <= x * FX_ONE,
        x * FX_ONE < (r + 1) * (r + 1),
{
    proof {
        lemma_mul_abs_le(x as int, FX_ONE as int, x as int, FX_ONE as int);
    }
    isqrt(x * FX_ONE)
}

} // verus!
