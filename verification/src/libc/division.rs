//! `div` and libgcc's integer division and modulo helpers.
//!
//! Older armv7 has no hardware integer divide, so the compiler emits calls to
//! these. Division by zero is undefined in C; the helpers return 0 for it.
use vstd::prelude::*;

verus! {

/// The quotient of `a` and `b`, rounded towards zero.
pub open spec fn quotient(a: int, b: int) -> int {
    if b > 0 {
        if a >= 0 {
            a / b
        } else {
            -((-a) / b)
        }
    } else {
        if a >= 0 {
            -(a / (-b))
        } else {
            (-a) / (-b)
        }
    }
}

/// What is left of `a` after division by `b`. It has the sign of `a`.
pub open spec fn remainder(a: int, b: int) -> int {
    a - b * quotient(a, b)
}

/// `x` as a signed number of 32 bits has it: only the quotient of the least
/// number and -1 is out of range, and that wraps around.
pub open spec fn wrap32(x: int) -> int {
    if x > i32::MAX {
        x - 0x1_0000_0000
    } else {
        x
    }
}

/// `x` as a signed number of 64 bits has it.
pub open spec fn wrap64(x: int) -> int {
    if x > i64::MAX {
        x - 0x1_0000_0000_0000_0000
    } else {
        x
    }
}

/// The bits of `x` read as a signed number.
pub open spec fn as_signed64(x: u64) -> int {
    wrap64(x as int)
}

/// The quotient and the remainder make up the dividend, and the remainder is
/// closer to zero than the divisor and has the dividend's sign.
pub proof fn law_quotient_and_remainder(a: int, b: int)
    requires
        b != 0,
    ensures
        a == b * quotient(a, b) + remainder(a, b),
        a >= 0 ==> 0 <= remainder(a, b) && remainder(a, b) < (if b > 0 { b } else { -b }),
        a < 0 ==> remainder(a, b) <= 0 && -remainder(a, b) < (if b > 0 { b } else { -b }),
{
    let m = if a >= 0 {
        a
    } else {
        -a
    };
    let d = if b > 0 {
        b
    } else {
        -b
    };
    vstd::arithmetic::div_mod::lemma_fundamental_div_mod(m, d);
    vstd::arithmetic::div_mod::lemma_mod_bound(m, d);
    let q = m / d;
    assert(m == d * q + m % d);
    assert(b * (-q) == -(b * q)) by (nonlinear_arith);
    assert((-b) * q == -(b * q)) by (nonlinear_arith);
    assert((-b) * (-q) == b * q) by (nonlinear_arith);
}

#[derive(Clone, Copy, Debug, PartialEq, Eq, Structural)]
#[allow(non_camel_case_types)]
pub struct div_t {
    pub quot: i32,
    pub rem: i32,
}

fn divide(a: i32, b: i32) -> (r: (i32, i32))
    requires
        b != 0,
    ensures
        r.0 == wrap32(quotient(a as int, b as int)),
        r.1 == remainder(a as int, b as int),
{
    proof {
        law_quotient_and_remainder(a as int, b as int);
    }
    if b == -1 {
        if a == i32::MIN {
            return (a, 0);
        }
        return (-a, 0);
    }
    (divide64(a as i64, b as i64).0 as i32, divide64(a as i64, b as i64).1 as i32)
}

fn divide64(a: i64, b: i64) -> (r: (i64, i64))
    requires
        b != 0,
    ensures
        r.0 == wrap64(quotient(a as int, b as int)),
        r.1 == remainder(a as int, b as int),
{
    if b == -1 {
        assert(quotient(a as int, -1) == -a);
        if a == i64::MIN {
            return (a, 0);
        }
        return (-a, 0);
    }
    let m: u64 = if a >= 0 {
        a as u64
    } else if a == i64::MIN {
        0x8000_0000_0000_0000
    } else {
        (-a) as u64
    };
    let d: u64 = if b > 0 {
        b as u64
    } else if b == i64::MIN {
        0x8000_0000_0000_0000
    } else {
        (-b) as u64
    };
    let q: u64 = m / d;
    let r: u64 = m % d;
    proof {
        vstd::arithmetic::div_mod::lemma_fundamental_div_mod(m as int, d as int);
        vstd::arithmetic::div_mod::lemma_div_is_ordered_by_denominator(m as int, 1, d as int);
        let k = q as int;
        assert(b * (-k) == -(b * k)) by (nonlinear_arith);
        assert((-b) * k == -(b * k)) by (nonlinear_arith);
        assert(d == 1 ==> m <= i64::MAX || a == i64::MIN);
        if d >= 2 {
            vstd::arithmetic::div_mod::lemma_div_is_ordered_by_denominator(m as int, 2, d as int);
        }
        law_quotient_and_remainder(a as int, b as int);
    }
    let rem: i64 = if a >= 0 {
        r as i64
    } else {
        -(r as i64)
    };
    let quot: i64 = if (a >= 0) == (b > 0) {
        q as i64
    } else if q == 0x8000_0000_0000_0000 {
        i64::MIN
    } else {
        -(q as i64)
    };
    (quot, rem)
}

pub fn div(numer: i32, denom: i32) -> (r: div_t)
    requires
        denom != 0,
    ensures
        r.quot == wrap32(quotient(numer as int, denom as int)),
        r.rem == remainder(numer as int, denom as int),
{
    let (quot, rem) = divide(numer, denom);
    div_t { quot, rem }
}

pub fn __udivsi3(a: u32, b: u32) -> (r: u32)
    ensures
        r == if b == 0 {
            0
        } else {
            a as int / b as int
        },
{
    if b == 0 {
        0
    } else {
        a / b
    }
}

pub fn __umodsi3(a: u32, b: u32) -> (r: u32)
    ensures
        r == if b == 0 {
            0
        } else {
            a as int % b as int
        },
{
    if b == 0 {
        0
    } else {
        a % b
    }
}

pub fn __divsi3(a: i32, b: i32) -> (r: i32)
    ensures
        r == if b == 0 {
            0
        } else {
            wrap32(quotient(a as int, b as int))
        },
{
    if b == 0 {
        0
    } else {
        divide(a, b).0
    }
}

pub fn __modsi3(a: i32, b: i32) -> (r: i32)
    ensures
        r == if b == 0 {
            0
        } else {
            remainder(a as int, b as int)
        },
{
    if b == 0 {
        0
    } else {
        divide(a, b).1
    }
}

// 64-bit (`long long`) versions. The signed ones take the bits of their
// arguments.

pub fn __udivdi3(a: u64, b: u64) -> (r: u64)
    ensures
        r == if b == 0 {
            0
        } else {
            a as int / b as int
        },
{
    if b == 0 {
        0
    } else {
        a / b
    }
}

pub fn __umoddi3(a: u64, b: u64) -> (r: u64)
    ensures
        r == if b == 0 {
            0
        } else {
            a as int % b as int
        },
{
    if b == 0 {
        0
    } else {
        a % b
    }
}

fn to_signed64(x: u64) -> (r: i64)
    ensures
        r == as_signed64(x),
{
    if x <= 0x7fff_ffff_ffff_ffff {
        x as i64
    } else {
        (x - 0x8000_0000_0000_0000) as i64 + i64::MIN
    }
}

pub fn __divdi3(a: u64, b: u64) -> (r: i64)
    ensures
        r == if b == 0 {
            0
        } else {
            wrap64(quotient(as_signed64(a), as_signed64(b)))
        },
{
    let a: i64 = to_signed64(a);
    let b: i64 = to_signed64(b);
    if b == 0 {
        0
    } else {
        divide64(a, b).0
    }
}

pub fn __moddi3(a: u64, b: u64) -> (r: i64)
    ensures
        r == if b == 0 {
            0
        } else {
            remainder(as_signed64(a), as_signed64(b))
        },
{
    let a: i64 = to_signed64(a);
    let b: i64 = to_signed64(b);
    if b == 0 {
        0
    } else {
        divide64(a, b).1
    }
}

/// What does not fit a signed number wraps around: as many bits as there are stay,
/// and what does fit stays as it is. Bits that are read as a signed number stand for
/// the same number modulo 2 to the 64th.
pub proof fn law_signed_numbers_wrap(a: i32, b: i32, c: i64, d: i64, x: u64)
    requires
        b != 0,
        d != 0,
    ensures
        ({
            let q = quotient(a as int, b as int);
            &&& i32::MIN <= wrap32(q) <= i32::MAX
            &&& (wrap32(q) - q) % 0x1_0000_0000 == 0
            &&& i32::MIN <= q <= i32::MAX ==> wrap32(q) == q
        }),
        ({
            let q = quotient(c as int, d as int);
            &&& i64::MIN <= wrap64(q) <= i64::MAX
            &&& (wrap64(q) - q) % 0x1_0000_0000_0000_0000 == 0
            &&& i64::MIN <= q <= i64::MAX ==> wrap64(q) == q
        }),
        i64::MIN <= as_signed64(x) <= i64::MAX,
        (as_signed64(x) - x) % 0x1_0000_0000_0000_0000 == 0,
{
    lemma_quotient_is_smaller(a as int, b as int);
    lemma_quotient_is_smaller(c as int, d as int);
}

/// A quotient is no further from zero than what was divided.
proof fn lemma_quotient_is_smaller(a: int, b: int)
    requires
        b != 0,
    ensures
        ({
            let m = if a >= 0 {
                a
            } else {
                -a
            };
            -m <= quotient(a, b) <= m
        }),
{
    let m = if a >= 0 {
        a
    } else {
        -a
    };
    let d = if b > 0 {
        b
    } else {
        -b
    };
    assert(0 <= m / d <= m) by (nonlinear_arith)
        requires
            m >= 0,
            d >= 1,
    ;
}

/// Division does not depend on signs but for the quotient's own: it is negative
/// exactly where one of the two numbers is and it is not zero.
pub proof fn law_signs_of_a_quotient(a: int, b: int)
    requires
        b != 0,
    ensures
        quotient(-a, b) == -quotient(a, b),
        quotient(a, -b) == -quotient(a, b),
        remainder(a, -b) == remainder(a, b),
        remainder(-a, b) == -remainder(a, b),
        a >= 0 && b > 0 ==> quotient(a, b) == a / b && remainder(a, b) == a % b,
{
    let q = quotient(a, b);
    assert(b * (-q) == -(b * q)) by (nonlinear_arith);
    assert((-b) * (-q) == b * q) by (nonlinear_arith);
    if a >= 0 && b > 0 {
        vstd::arithmetic::div_mod::lemma_fundamental_div_mod(a, b);
    }
}

/// The helpers for signed numbers belong together, and `div` gives what they give: the
/// quotient and the remainder make up the dividend, the remainder is closer to zero
/// than the divisor and has the dividend's sign, and both are 0 where the divisor is.
/// The least number divided by -1 wraps around.
pub proof fn law_signed_helpers(
    a: i32,
    b: i32,
    q: i32,
    m: i32,
    d: div_t,
    wide_a: u64,
    wide_b: u64,
    wide_q: i64,
    wide_m: i64,
)
    requires
        call_ensures(__divsi3, (a, b), q),
        call_ensures(__modsi3, (a, b), m),
        b != 0 ==> call_ensures(div, (a, b), d),
        call_ensures(__divdi3, (wide_a, wide_b), wide_q),
        call_ensures(__moddi3, (wide_a, wide_b), wide_m),
    ensures
        b == 0 ==> q == 0 && m == 0,
        b != 0 ==> d.quot == q && d.rem == m,
        b != 0 && !(a == i32::MIN && b == -1) ==> a == b * q + m,
        a == i32::MIN && b == -1 ==> q == a && m == 0,
        b != 0 ==> -(if b > 0 { b as int } else { -b }) < m && m < (if b > 0 { b as int } else { -b }),
        a >= 0 ==> m >= 0,
        a < 0 ==> m <= 0,
        ({
            let x = as_signed64(wide_a);
            let y = as_signed64(wide_b);
            &&& y == 0 ==> wide_q == 0 && wide_m == 0
            &&& y != 0 && !(x == i64::MIN && y == -1) ==> x == y * wide_q + wide_m
            &&& x >= 0 ==> wide_m >= 0
            &&& x < 0 ==> wide_m <= 0
            &&& y > 0 ==> -y < wide_m && wide_m < y
            &&& y < 0 ==> y < wide_m && wide_m < -y
        }),
{
    if b != 0 {
        law_quotient_and_remainder(a as int, b as int);
        lemma_quotient_in_range(a as int, b as int, i32::MAX as int);
    }
    let x = as_signed64(wide_a);
    let y = as_signed64(wide_b);
    if y != 0 {
        law_quotient_and_remainder(x, y);
        lemma_quotient_in_range(x, y, i64::MAX as int);
    }
}

/// Only the least number divided by -1 is out of range.
proof fn lemma_quotient_in_range(a: int, b: int, max: int)
    requires
        b != 0,
        max > 0,
        -max - 1 <= a <= max,
    ensures
        quotient(a, b) > max <==> a == -max - 1 && b == -1,
        a == -max - 1 && b == -1 ==> quotient(a, b) == max + 1 && remainder(a, b) == 0,
{
    let m = if a >= 0 {
        a
    } else {
        -a
    };
    let d = if b > 0 {
        b
    } else {
        -b
    };
    assert(0 <= m / d <= m) by (nonlinear_arith)
        requires
            m >= 0,
            d >= 1,
    ;
    if d >= 2 {
        assert(2 * (m / d) <= m) by (nonlinear_arith)
            requires
                m >= 0,
                d >= 2,
        ;
    } else {
        assert(m / 1 == m);
    }
}

/// The helpers for unsigned numbers belong together: the quotient and the remainder
/// make up the dividend, the remainder is less than the divisor, and both are 0 where
/// the divisor is.
pub proof fn law_unsigned_helpers(
    a: u32,
    b: u32,
    q: u32,
    m: u32,
    wide_a: u64,
    wide_b: u64,
    wide_q: u64,
    wide_m: u64,
)
    requires
        call_ensures(__udivsi3, (a, b), q),
        call_ensures(__umodsi3, (a, b), m),
        call_ensures(__udivdi3, (wide_a, wide_b), wide_q),
        call_ensures(__umoddi3, (wide_a, wide_b), wide_m),
    ensures
        b == 0 ==> q == 0 && m == 0,
        b != 0 ==> a == b * q + m && m < b,
        wide_b == 0 ==> wide_q == 0 && wide_m == 0,
        wide_b != 0 ==> wide_a == wide_b * wide_q + wide_m && wide_m < wide_b,
{
    if b != 0 {
        vstd::arithmetic::div_mod::lemma_fundamental_div_mod(a as int, b as int);
    }
    if wide_b != 0 {
        vstd::arithmetic::div_mod::lemma_fundamental_div_mod(wide_a as int, wide_b as int);
    }
}

} // verus!
