use vstd::prelude::*;
use vstd::arithmetic::div_mod::{lemma_div_by_multiple, lemma_div_is_ordered};

verus! {

/// One whole unit of the fixed-point scale. Every scalar that flows through
/// the pipeline — coordinates, sines and cosines, scale factors, fields of
/// view — is an integer count of `1 / UNIT` steps.
pub const UNIT: i64 = 65536;

/// Half of `UNIT`; centering a surface axis of `dim` pixels adds
/// `dim * HALF_UNIT`, the fixed-point form of `dim / 2`.
pub const HALF_UNIT: i64 = 32768;

/// Magnitude bound on the operands of `fx_div`; every intermediate value of
/// the pipeline stays far below it.
pub const FX_LIMIT: i64 = 0x4000_0000_0000_0000;

/// Quotient rounded toward zero. This is the rounding the pipeline applies
/// whenever it removes one scale factor after a product, divides by a depth,
/// or turns a surface coordinate into a pixel column or row.
pub open spec fn tdiv(a: int, d: int) -> int
    recommends
        d != 0,
{
    let n = if a >= 0 { a } else { -a };
    let m = if d >= 0 { d } else { -d };
    if (a >= 0) == (d >= 0) {
        n / m
    } else {
        -(n / m)
    }
}

/// Exact division: a multiple of the divisor loses nothing to rounding.
pub proof fn lemma_tdiv_exact(n: int, d: int)
    requires
        d > 0,
    ensures
        tdiv(n * d, d) == n,
{
    if n >= 0 {
        assert(n * d >= 0) by (nonlinear_arith)
            requires
                n >= 0,
                d > 0,
        ;
        lemma_div_by_multiple(n, d);
    } else {
        assert(n * d < 0) by (nonlinear_arith)
            requires
                n < 0,
                d > 0,
        ;
        assert(-(n * d) == (-n) * d) by (nonlinear_arith);
        lemma_div_by_multiple(-n, d);
    }
}

/// Rounding toward zero never enlarges a bound: if `|a| <= m * d` then the
/// quotient stays within `[-m, m]`.
pub proof fn lemma_tdiv_bound(a: int, d: int, m: int)
    requires
        d > 0,
        0 <= m,
        -(m * d) <= a <= m * d,
    ensures
        -m <= tdiv(a, d) <= m,
{
    lemma_div_by_multiple(m, d);
    assert(0int / d == 0) by (nonlinear_arith)
        requires
            d > 0,
    ;
    if a >= 0 {
        lemma_div_is_ordered(0, a, d);
        lemma_div_is_ordered(a, m * d, d);
    } else {
        lemma_div_is_ordered(0, -a, d);
        lemma_div_is_ordered(-a, m * d, d);
    }
}

/// Rounding toward zero loses less than one divisor's worth: the quotient
/// scaled back differs from the dividend by less than `d`.
pub proof fn lemma_tdiv_remainder(a: int, d: int)
    requires
        d > 0,
    ensures
        -d < a - tdiv(a, d) * d < d,
{
    if a >= 0 {
        assert(0 <= a - (a / d) * d < d) by (nonlinear_arith)
            requires
                d > 0,
                a >= 0,
        ;
    } else {
        assert(0 <= (-a) - ((-a) / d) * d < d) by (nonlinear_arith)
            requires
                d > 0,
                a < 0,
        ;
        assert((-((-a) / d)) * d == -(((-a) / d) * d)) by (nonlinear_arith);
    }
}

/// A nonnegative value keeps a nonnegative quotient.
pub proof fn lemma_tdiv_nonneg(a: int, d: int)
    requires
        0 <= a,
        d > 0,
    ensures
        0 <= tdiv(a, d),
{
    assert(0int / d == 0) by (nonlinear_arith)
        requires
            d > 0,
    ;
    lemma_div_is_ordered(0, a, d);
}

/// Division never grows a magnitude: the quotient stays within the
/// dividend's absolute value, whatever the divisor's sign.
pub proof fn lemma_tdiv_magnitude(a: int, d: int)
    requires
        d != 0,
    ensures
        -(if a >= 0 {
            a
        } else {
            -a
        }) <= tdiv(a, d) <= (if a >= 0 {
            a
        } else {
            -a
        }),
{
    let n = if a >= 0 {
        a
    } else {
        -a
    };
    let m = if d >= 0 {
        d
    } else {
        -d
    };
    assert(0 <= n / m <= n) by (nonlinear_arith)
        requires
            0 <= n,
            1 <= m,
    ;
}

/// Bounded factors give a bounded product.
pub proof fn lemma_mul_bound(x: int, y: int, bx: int, by: int)
    requires
        -bx <= x <= bx,
        -by <= y <= by,
    ensures
        -(bx * by) <= x * y <= bx * by,
{
    assert(-(bx * by) <= x * y <= bx * by) by (nonlinear_arith)
        requires
            -bx <= x <= bx,
            -by <= y <= by,
    ;
}

/// Runs `tdiv` on machine integers: the quotient of `a` by `d`, rounded
/// toward zero, the rounding that a division followed by an integer cast
/// applies.
pub fn fx_div(a: i64, d: i64) -> (r: i64)
    requires
        d != 0,
        -FX_LIMIT < a < FX_LIMIT,
        -FX_LIMIT < d < FX_LIMIT,
    ensures
        r == tdiv(a as int, d as int),
{
    let n: u64 = if a >= 0 {
        a as u64
    } else {
        (-a) as u64
    };
    let m: u64 = if d >= 0 {
        d as u64
    } else {
        (-d) as u64
    };
    proof {
        assert(n as int / m as int <= n as int) by (nonlinear_arith)
            requires
                1 <= m as int,
                0 <= n as int,
        ;
    }
    let q: u64 = n / m;
    if (a >= 0) == (d >= 0) {
        q as i64
    } else {
        -(q as i64)
    }
}

} // verus!
