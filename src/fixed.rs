use vstd::prelude::*;

verus! {

/// The fixed-point representation of `1.0` for normalized coordinates and
/// probabilities.
pub const UNIT: i64 = 1000000;

/// Floor division by a positive divisor, in the mathematical sense.
pub open spec fn floor_div(a: int, b: int) -> int
    recommends
        b > 0,
{
    a / b
}

/// Division by a positive divisor that rounds toward zero.
pub open spec fn trunc_div(a: int, b: int) -> int
    recommends
        b > 0,
{
    if a >= 0 {
        a / b
    } else {
        -((-a) / b)
    }
}

/// Clamps `v` into `[lo, hi]`.
pub open spec fn clamp(v: int, lo: int, hi: int) -> int {
    if v < lo {
        lo
    } else if v > hi {
        hi
    } else {
        v
    }
}

/// Floor division of `a` by a positive `b`.
pub fn div_floor(a: i128, b: i128) -> (r: i128)
    requires
        b > 0,
        a > i128::MIN,
    ensures
        r == floor_div(a as int, b as int),
{
    if a >= 0 {
        a / b
    } else {
        let q = (-a) / b;
        let m = (-a) % b;
        proof {
            vstd::arithmetic::div_mod::lemma_fundamental_div_mod(-a as int, b as int);
        }
        proof {
            let na = -a as int;
            assert(na == b * q + m);
            assert(0 <= m < b);
            assert(a == (-q) * b + 0 || m != 0) by (nonlinear_arith)
                requires
                    na == -a,
                    na == b * q + m,
            ;
            assert(a == (-q - 1) * b + (b - m)) by (nonlinear_arith)
                requires
                    na == -a,
                    na == b * q + m,
            ;
        }
        if m == 0 {
            proof {
                vstd::arithmetic::div_mod::lemma_fundamental_div_mod_converse(
                    a as int, b as int, -q as int, 0,
                );
            }
            -q
        } else {
            proof {
                vstd::arithmetic::div_mod::lemma_fundamental_div_mod_converse(
                    a as int, b as int, -q - 1, b - m,
                );
            }
            -q - 1
        }
    }
}

/// Floor division by a positive divisor never moves a value away from zero.
pub proof fn lemma_floor_div_bounds(a: int, b: int)
    requires
        b >= 1,
    ensures
        a >= 0 ==> 0 <= floor_div(a, b) <= a,
        a < 0 ==> a <= floor_div(a, b) <= 0,
{
    vstd::arithmetic::div_mod::lemma_fundamental_div_mod(a, b);
    let q = a / b;
    let r = a % b;
    assert(0 <= r < b);
    if a >= 0 {
        assert(0 <= q <= a) by (nonlinear_arith)
            requires
                a == b * q + r,
                0 <= r < b,
                b >= 1,
                a >= 0,
        ;
    } else {
        assert(a <= q <= 0) by (nonlinear_arith)
            requires
                a == b * q + r,
                0 <= r < b,
                b >= 1,
                a < 0,
        ;
    }
}

/// Clamps `v` into `[0, UNIT]`.
pub fn clamp_unit(v: i128) -> (r: i64)
    ensures
        r == clamp(v as int, 0, UNIT as int),
{
    if v < 0 {
        0
    } else if v > UNIT as i128 {
        UNIT
    } else {
        v as i64
    }
}

} // verus!
