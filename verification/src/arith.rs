//! Arithmetic on whole numbers, done exactly.
//!
//! The sum, difference and product of two whole doubles below `2^53` in
//! magnitude, where the result is below `2^53` too, a quotient that comes
//! out whole, and a remainder are whole numbers that a double holds
//! exactly; so IEEE-754 arithmetic gives the same as arithmetic on whole
//! numbers, and the library does it by itself. All other arithmetic is
//! left to the host.
use vstd::prelude::*;
use crate::machine::ArithOp;
use crate::number::{
    bits_magnitude, bits_negative, is_whole, lemma_pow2_grows, lemma_shifts, lemma_whole_bits,
    lemma_whole_bits_back, less, magnitude, negative, pow2, power_of_two, same_number, shifts,
    whole, whole_bits, whole_magnitude, whole_number_bits,
};
use crate::text::decimal_of;
use crate::value::{Number, Numeral};

verus! {

/// Whether a double is a whole number below `2^53` in magnitude.
pub open spec fn small_whole(bits: u64) -> bool {
    is_whole(bits) && whole_magnitude(bits) < 0x20_0000_0000_0000
}

/// The whole number that a whole double stands for.
pub open spec fn signed_value(bits: u64) -> int {
    if negative(bits) {
        -(whole_magnitude(bits) as int)
    } else {
        whole_magnitude(bits) as int
    }
}

/// The whole number `v`, below `2^53` in magnitude, as a number; a zero
/// with a minus sign where `minus_zero` holds.
pub open spec fn from_signed(v: int, minus_zero: bool) -> Numeral {
    if v == 0 {
        whole(0, minus_zero)
    } else if v < 0 {
        whole((-v) as nat, true)
    } else {
        whole(v as nat, false)
    }
}

/// What `left op right` is where the library computes it: both are whole
/// numbers below `2^53` in magnitude and so is the result; for a division,
/// the divisor is no zero and the quotient comes out whole; for a
/// remainder, the divisor is no zero. A sum that is zero is the negative
/// zero only where both are; a difference only where it is the negative
/// zero less the positive one; a product and a quotient have the sign that
/// the signs of the two give; a remainder has the sign of the first.
pub open spec fn exact(op: ArithOp, left: u64, right: u64) -> Option<Numeral> {
    let a = whole_magnitude(left);
    let b = whole_magnitude(right);
    let limit: int = 0x20_0000_0000_0000;
    if !small_whole(left) || !small_whole(right) {
        None
    } else {
        match op {
            ArithOp::Add => {
                let v = signed_value(left) + signed_value(right);
                if -limit < v < limit {
                    Some(from_signed(v, negative(left) && negative(right)))
                } else {
                    None
                }
            },
            ArithOp::Sub => {
                let v = signed_value(left) - signed_value(right);
                if -limit < v < limit {
                    Some(from_signed(v, negative(left) && !negative(right)))
                } else {
                    None
                }
            },
            ArithOp::Mul => if a * b < limit {
                Some(whole(a * b, negative(left) != negative(right)))
            } else {
                None
            },
            ArithOp::Div => if b != 0 && a % b == 0 {
                Some(whole(a / b, negative(left) != negative(right)))
            } else {
                None
            },
            ArithOp::Rem => if b != 0 {
                Some(whole(a % b, negative(left)))
            } else {
                None
            },
        }
    }
}

/// What the library computes is arithmetic on whole numbers: the result is
/// a whole number below `2^53` in magnitude, and it is the sum, the
/// difference or the product of the two; or the quotient, which times the
/// second gives the first; or the remainder of the magnitudes, with the
/// sign of the first.
pub proof fn law_exact_is_whole_arithmetic(op: ArithOp, left: u64, right: u64)
    ensures
        exact(op, left, right) matches Some(n) ==> {
            &&& small_whole(n.bits)
            &&& match op {
                ArithOp::Add => signed_value(n.bits) == signed_value(left) + signed_value(right),
                ArithOp::Sub => signed_value(n.bits) == signed_value(left) - signed_value(right),
                ArithOp::Mul => signed_value(n.bits) == signed_value(left) * signed_value(right),
                ArithOp::Div => signed_value(n.bits) * signed_value(right) == signed_value(left),
                ArithOp::Rem => whole_magnitude(n.bits) == whole_magnitude(left)
                    % whole_magnitude(right) && negative(n.bits) == negative(left),
            }
        },
{
    let a = whole_magnitude(left);
    let b = whole_magnitude(right);
    match exact(op, left, right) {
        Some(n) => {
            match op {
                ArithOp::Add => {
                    let v = signed_value(left) + signed_value(right);
                    lemma_from_signed(v, negative(left) && negative(right));
                },
                ArithOp::Sub => {
                    let v = signed_value(left) - signed_value(right);
                    lemma_from_signed(v, negative(left) && !negative(right));
                },
                ArithOp::Mul => {
                    lemma_whole_bits(a * b, negative(left) != negative(right));
                    let x = a as int;
                    let y = b as int;
                    assert((-x) * y == -(x * y)) by (nonlinear_arith);
                    assert(x * (-y) == -(x * y)) by (nonlinear_arith);
                    assert((-x) * (-y) == x * y) by (nonlinear_arith);
                },
                ArithOp::Div => {
                    lemma_whole_bits(a / b, negative(left) != negative(right));
                    vstd::arithmetic::div_mod::lemma_fundamental_div_mod(a as int, b as int);
                    let q = (a / b) as int;
                    let y = b as int;
                    assert(a as int == y * q);
                    assert(q < 0x20_0000_0000_0000) by (nonlinear_arith)
                        requires
                            a as int == y * q,
                            y >= 1,
                            q >= 0,
                            a < 0x20_0000_0000_0000,
                    ;
                    assert((-q) * y == -(y * q)) by (nonlinear_arith);
                    assert(q * (-y) == -(y * q)) by (nonlinear_arith);
                    assert((-q) * (-y) == y * q) by (nonlinear_arith);
                    assert(q * y == y * q) by (nonlinear_arith);
                },
                ArithOp::Rem => {
                    assert(a % b < b);
                    lemma_whole_bits(a % b, negative(left));
                },
            }
        },
        None => {},
    }
}

proof fn lemma_from_signed(v: int, minus_zero: bool)
    requires
        -0x20_0000_0000_0000 < v < 0x20_0000_0000_0000,
    ensures
        small_whole(from_signed(v, minus_zero).bits),
        signed_value(from_signed(v, minus_zero).bits) == v,
{
    if v == 0 {
        lemma_whole_bits(0, minus_zero);
    } else if v < 0 {
        lemma_whole_bits((-v) as nat, true);
    } else {
        lemma_whole_bits(v as nat, false);
    }
}

/// A whole number that is not yet a significand after `t` doublings takes
/// more.
proof fn lemma_shifts_more(m: nat, t: nat)
    requires
        0 < m,
        m * pow2(t) < 0x10_0000_0000_0000,
    ensures
        shifts(m) > t,
    decreases t,
{
    lemma_pow2_grows(0, t);
    let p = pow2(t);
    assert(m <= m * p) by (nonlinear_arith)
        requires
            p >= 1,
    ;
    if t > 0 {
        let q = pow2((t - 1) as nat);
        assert(p == 2 * q);
        assert((2 * m) * q == m * (2 * q)) by (nonlinear_arith);
        lemma_shifts_more(2 * m, (t - 1) as nat);
    }
}

/// The greater of two whole numbers has the greater bits.
proof fn lemma_whole_bits_grow(a: nat, b: nat, minus_a: bool, minus_b: bool)
    requires
        a < b < 0x20_0000_0000_0000,
    ensures
        magnitude(whole_bits(a, minus_a)) < magnitude(whole_bits(b, minus_b)),
{
    lemma_whole_bits(a, minus_a);
    lemma_whole_bits(b, minus_b);
    lemma_shifts(b);
    if a > 0 {
        lemma_shifts(a);
        let s = shifts(a);
        let t = shifts(b);
        let p = pow2(t);
        lemma_pow2_grows(0, t);
        assert(a * p < b * p) by (nonlinear_arith)
            requires
                a < b,
                p >= 1,
        ;
        if a * p < 0x10_0000_0000_0000 {
            lemma_shifts_more(a, t);
        } else {
            crate::number::lemma_shifts_is(a, t);
        }
    }
}

/// On whole numbers, the equality and the order of doubles are those of the
/// whole numbers that they stand for.
pub proof fn law_whole_order(a: u64, b: u64)
    requires
        small_whole(a),
        small_whole(b),
    ensures
        same_number(a, b) <==> signed_value(a) == signed_value(b),
        less(a, b) <==> signed_value(a) < signed_value(b),
{
    let x = whole_magnitude(a);
    let y = whole_magnitude(b);
    lemma_whole_bits_back(a);
    lemma_whole_bits_back(b);
    lemma_whole_bits(x, negative(a));
    lemma_whole_bits(y, negative(b));
    if x < y {
        lemma_whole_bits_grow(x, y, negative(a), negative(b));
    } else if y < x {
        lemma_whole_bits_grow(y, x, negative(b), negative(a));
    }
    assert(magnitude(a) <= 0x7ff0_0000_0000_0000) by {
        if x > 0 {
            lemma_shifts(x);
        }
    }
    assert(magnitude(b) <= 0x7ff0_0000_0000_0000) by {
        if y > 0 {
            lemma_shifts(y);
        }
    }
}

/// The magnitude of a double that is a whole number below `2^53`.
pub fn small_whole_magnitude(bits: u64) -> (r: Option<u64>)
    ensures
        match r {
            Some(m) => small_whole(bits) && m == whole_magnitude(bits),
            None => !small_whole(bits),
        },
{
    let m = bits_magnitude(bits);
    if m == 0 {
        return Some(0);
    }
    let e = m / 0x10_0000_0000_0000;
    if e < 1023 || e >= 2047 {
        return None;
    }
    let sig = 0x10_0000_0000_0000 + m % 0x10_0000_0000_0000;
    if e > 1075 {
        proof {
            let p = pow2((e - 1075) as nat) as int;
            lemma_pow2_grows(1, (e - 1075) as nat);
            assert(pow2(1) == 2) by {
                reveal_with_fuel(pow2, 2);
            }
            assert(sig * p >= 0x20_0000_0000_0000) by (nonlinear_arith)
                requires
                    sig >= 0x10_0000_0000_0000,
                    p >= 2,
            ;
        }
        return None;
    }
    if e == 1075 {
        proof {
            assert(pow2(0) == 1);
            assert(sig * 1 == sig);
        }
        return Some(sig);
    }
    let p = power_of_two(1075 - e);
    if sig % p != 0 {
        return None;
    }
    Some(sig / p)
}

/// The whole number `m` as a number.
fn whole_number(m: u64, minus: bool) -> (n: Number)
    requires
        m < 0x20_0000_0000_0000,
    ensures
        n@ == whole(m as nat, minus),
{
    let mut text = String::new();
    if minus {
        text.push('-');
    }
    text.append(decimal_of(m).as_str());
    assert(text@ =~= whole(m as nat, minus).text);
    Number { bits: whole_number_bits(m, minus), text }
}

/// `left op right`, where the library computes it.
pub fn exact_arith(op: ArithOp, left: &Number, right: &Number) -> (r: Option<Number>)
    ensures
        match r {
            Some(n) => exact(op, left.bits, right.bits) == Some(n@),
            None => exact(op, left.bits, right.bits) is None,
        },
{
    let a = match small_whole_magnitude(left.bits) {
        Some(a) => a,
        None => {
            return None;
        },
    };
    let b = match small_whole_magnitude(right.bits) {
        Some(b) => b,
        None => {
            return None;
        },
    };
    let limit: u64 = 0x20_0000_0000_0000;
    let minus_left = bits_negative(left.bits);
    let minus_right = bits_negative(right.bits);
    match op {
        ArithOp::Add => signed_sum(a, minus_left, b, minus_right, minus_left && minus_right),
        ArithOp::Sub => signed_sum(a, minus_left, b, !minus_right, minus_left && !minus_right),
        ArithOp::Mul => {
            assert(a * b < 0x400_0000_0000_0000_0000_0000_0000) by (nonlinear_arith)
                requires
                    a < 0x20_0000_0000_0000,
                    b < 0x20_0000_0000_0000,
            ;
            let wide: u128 = (a as u128) * (b as u128);
            if wide < limit as u128 {
                assert(a * b == wide);
                Some(whole_number(wide as u64, minus_left != minus_right))
            } else {
                None
            }
        },
        ArithOp::Div => {
            if b != 0 && a % b == 0 {
                Some(whole_number(a / b, minus_left != minus_right))
            } else {
                None
            }
        },
        ArithOp::Rem => {
            if b != 0 {
                Some(whole_number(a % b, minus_left))
            } else {
                None
            }
        },
    }
}

/// The sum of two whole numbers given by magnitude and sign, where it is
/// below `2^53` in magnitude.
fn signed_sum(a: u64, minus_a: bool, b: u64, minus_b: bool, minus_zero: bool) -> (r: Option<
    Number,
>)
    requires
        a < 0x20_0000_0000_0000,
        b < 0x20_0000_0000_0000,
    ensures
        ({
            let v = (if minus_a {
                -(a as int)
            } else {
                a as int
            }) + (if minus_b {
                -(b as int)
            } else {
                b as int
            });
            match r {
                Some(n) => -0x20_0000_0000_0000 < v < 0x20_0000_0000_0000 && n@ == from_signed(
                    v,
                    minus_zero,
                ),
                None => !(-0x20_0000_0000_0000 < v < 0x20_0000_0000_0000),
            }
        }),
{
    let limit: u64 = 0x20_0000_0000_0000;
    if minus_a == minus_b {
        let m = a + b;
        if m >= limit {
            None
        } else if m == 0 {
            Some(whole_number(0, minus_zero))
        } else {
            Some(whole_number(m, minus_a))
        }
    } else if a == b {
        Some(whole_number(0, minus_zero))
    } else if a > b {
        Some(whole_number(a - b, minus_a))
    } else {
        Some(whole_number(b - a, minus_b))
    }
}

} // verus!
