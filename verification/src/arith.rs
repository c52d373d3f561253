//! The four primitive operations on two's-complement 32-bit integers.
//!
//! Addition, subtraction and multiplication wrap modulo `2^32`; division
//! truncates toward zero, and the one overflowing quotient wraps back to
//! `i32::MIN`.  Division by zero is excluded at this level: callers test the
//! divisor first and report it as an error.

use vstd::prelude::*;

verus! {

/// The sum of `a` and `b`, wrapped modulo `2^32`.
pub open spec fn spec_add(a: i32, b: i32) -> i32 {
    vstd::wrapping::i32_specs::wrapping_add(a, b)
}

/// The difference of `a` and `b`, wrapped modulo `2^32`.
pub open spec fn spec_subtract(a: i32, b: i32) -> i32 {
    vstd::wrapping::i32_specs::wrapping_sub(a, b)
}

/// The product of `a` and `b`, wrapped modulo `2^32`.
pub open spec fn spec_multiply(a: i32, b: i32) -> i32 {
    vstd::wrapping::i32_specs::wrapping_mul(a, b)
}

/// The magnitude of `a` as a mathematical integer.
pub open spec fn spec_abs(a: i32) -> int {
    if a < 0 {
        -(a as int)
    } else {
        a as int
    }
}

/// The quotient of `a` and `b`, truncated toward zero.
///
/// The only overflowing case, `i32::MIN / -1`, wraps back to `i32::MIN`.
/// The value at `b == 0` is an arbitrary placeholder; every contract that
/// speaks of this function first excludes a zero divisor.
pub open spec fn spec_divide(a: i32, b: i32) -> i32 {
    if b == 0 {
        0
    } else if a == i32::MIN && b == -1 {
        i32::MIN
    } else if (a < 0) == (b < 0) {
        (spec_abs(a) / spec_abs(b)) as i32
    } else {
        (-(spec_abs(a) / spec_abs(b))) as i32
    }
}

/// Wrapping addition.
pub fn prim_add(a: i32, b: i32) -> (r: i32)
    ensures
        r == spec_add(a, b),
{
    a.wrapping_add(b)
}

/// Wrapping subtraction.
pub fn prim_subtract(a: i32, b: i32) -> (r: i32)
    ensures
        r == spec_subtract(a, b),
{
    a.wrapping_sub(b)
}

/// Wrapping multiplication.
pub fn prim_multiply(a: i32, b: i32) -> (r: i32)
    ensures
        r == spec_multiply(a, b),
{
    a.wrapping_mul(b)
}

/// Division truncated toward zero, wrapping on the one overflowing quotient.
///
/// The quotient is computed on the magnitudes, which always fit in a `u32`,
/// and the sign is put back afterwards.
pub fn prim_divide(a: i32, b: i32) -> (r: i32)
    requires
        b != 0,
    ensures
        r == spec_divide(a, b),
{
    if a == i32::MIN && b == -1 {
        i32::MIN
    } else {
        let ma: u32 = if a < 0 {
            (-(a as i64)) as u32
        } else {
            a as u32
        };
        let mb: u32 = if b < 0 {
            (-(b as i64)) as u32
        } else {
            b as u32
        };
        assert(ma == spec_abs(a));
        assert(mb == spec_abs(b));
        let q: u32 = ma / mb;
        if (a < 0) != (b < 0) {
            assert(q <= ma) by (nonlinear_arith)
                requires
                    q == ma as int / mb as int,
                    mb >= 1,
            ;
            (-(q as i64)) as i32
        } else {
            assert(q <= ma) by (nonlinear_arith)
                requires
                    q == ma as int / mb as int,
                    mb >= 1,
            ;
            assert(q <= i32::MAX) by {
                if a < 0 && b < 0 {
                    if a == i32::MIN {
                        assert(mb >= 2);
                        assert(q <= ma / 2) by (nonlinear_arith)
                            requires
                                q == ma as int / mb as int,
                                mb >= 2,
                                ma >= 0,
                        ;
                    }
                }
            }
            q as i32
        }
    }
}

} // verus!
