//! Numbers as bit patterns: the comparisons that need no arithmetic.
//!
//! A number is an IEEE-754 double held as its 64 bits. Equality and order
//! of two doubles are decided on the bits alone, and so is which whole
//! number a double stands for, if it stands for one.
use vstd::prelude::*;
use crate::text::{decimal, owned, Text};
use crate::value::{Number, Numeral};

verus! {

/// The bits without the sign.
pub open spec fn magnitude(bits: u64) -> int {
    bits as int % 0x8000_0000_0000_0000
}

/// Whether the sign bit is set.
pub open spec fn negative(bits: u64) -> bool {
    bits >= 0x8000_0000_0000_0000
}

/// Not a number: all exponent bits set and a fraction that is not zero.
pub open spec fn is_nan(bits: u64) -> bool {
    magnitude(bits) > 0x7ff0_0000_0000_0000
}

/// Zero of either sign.
pub open spec fn is_zero(bits: u64) -> bool {
    magnitude(bits) == 0
}

/// Where the number stands in the order of the doubles: the magnitude,
/// counted downwards for negative numbers. Both zeros stand at `0`.
pub open spec fn rank(bits: u64) -> int {
    if negative(bits) {
        -magnitude(bits)
    } else {
        magnitude(bits)
    }
}

/// Equality of doubles: a NaN equals nothing, the two zeros are equal.
pub open spec fn same_number(a: u64, b: u64) -> bool {
    !is_nan(a) && !is_nan(b) && rank(a) == rank(b)
}

/// `a < b` on doubles: false where either is a NaN.
pub open spec fn less(a: u64, b: u64) -> bool {
    !is_nan(a) && !is_nan(b) && rank(a) < rank(b)
}

/// Two to the power `k`.
pub open spec fn pow2(k: nat) -> nat
    decreases k,
{
    if k == 0 {
        1
    } else {
        2 * pow2((k - 1) as nat)
    }
}

/// The exponent field: the eleven bits after the sign.
pub open spec fn exponent(bits: u64) -> int {
    magnitude(bits) / 0x10_0000_0000_0000
}

/// The significand of a normal number: the fraction field, fifty-two bits,
/// under a leading one. The number is the significand times two to the
/// power of the exponent field less 1075.
pub open spec fn significand(bits: u64) -> int {
    0x10_0000_0000_0000 + magnitude(bits) % 0x10_0000_0000_0000
}

/// Whether the double is a whole number: a zero, or a finite number of at
/// least one whose significand has no bit below the binary point.
pub open spec fn is_whole(bits: u64) -> bool {
    is_zero(bits) || (1023 <= exponent(bits) < 2047 && (exponent(bits) >= 1075 || significand(
        bits,
    ) % (pow2((1075 - exponent(bits)) as nat) as int) == 0))
}

/// Whether a whole double is odd once it is brought into the 64-bit
/// integers: from `2^63` on upwards it counts as the greatest of them,
/// which is odd, and from `-2^63` on downwards as the least, which is even.
pub open spec fn is_odd(bits: u64) -> bool {
    if is_zero(bits) {
        false
    } else if exponent(bits) >= 1086 {
        !negative(bits)
    } else if exponent(bits) > 1075 || exponent(bits) < 1023 {
        false
    } else {
        (significand(bits) / (pow2((1075 - exponent(bits)) as nat) as int)) % 2 == 1
    }
}

proof fn lemma_pow2_add(a: nat, b: nat)
    ensures
        pow2(a + b) == pow2(a) * pow2(b),
    decreases b,
{
    if b > 0 {
        lemma_pow2_add(a, (b - 1) as nat);
        assert(a + b - 1 == a + (b - 1));
        assert(pow2(a + b) == 2 * (pow2(a) * pow2((b - 1) as nat)));
        assert(2 * (pow2(a) * pow2((b - 1) as nat)) == pow2(a) * (2 * pow2((b - 1) as nat)))
            by (nonlinear_arith);
    } else {
        assert(pow2(a) * 1 == pow2(a));
    }
}

proof fn lemma_pow2_52()
    ensures
        pow2(52) == 0x10_0000_0000_0000,
{
    assert(pow2(13) == 8192) by {
        reveal_with_fuel(pow2, 14);
    }
    lemma_pow2_add(13, 13);
    lemma_pow2_add(26, 26);
    assert(8192 * 8192 == 67108864);
    assert(67108864 * 67108864 == 0x10_0000_0000_0000);
}

/// Powers of two are at least one, and grow with the exponent.
pub proof fn lemma_pow2_grows(k: nat, m: nat)
    requires
        k <= m,
    ensures
        1 <= pow2(k) <= pow2(m),
        k < m ==> 2 * pow2(k) <= pow2(m),
    decreases m,
{
    if k < m {
        lemma_pow2_grows(k, (m - 1) as nat);
    } else if k > 0 {
        lemma_pow2_grows((k - 1) as nat, (k - 1) as nat);
    }
}

proof fn lemma_pow2_bound(k: nat)
    requires
        k <= 52,
    ensures
        1 <= pow2(k) <= 0x10_0000_0000_0000,
        k < 52 ==> pow2(k) <= 0x8_0000_0000_0000,
{
    lemma_pow2_52();
    lemma_pow2_grows(k, 52);
}

/// Two to the power `k`, for `k` up to 52.
pub fn power_of_two(k: u64) -> (p: u64)
    requires
        k <= 52,
    ensures
        p == pow2(k as nat),
        1 <= p <= 0x10_0000_0000_0000,
{
    let mut p: u64 = 1;
    let mut i: u64 = 0;
    while i < k
        invariant
            i <= k <= 52,
            p == pow2(i as nat),
        decreases k - i,
    {
        proof {
            lemma_pow2_bound(i as nat);
        }
        p = p * 2;
        i += 1;
    }
    proof {
        lemma_pow2_bound(k as nat);
    }
    p
}

/// Whether the double is a whole number.
pub fn bits_whole(bits: u64) -> (b: bool)
    ensures
        b == is_whole(bits),
{
    let m = bits_magnitude(bits);
    if m == 0 {
        return true;
    }
    let e = m / 0x10_0000_0000_0000;
    if e < 1023 || e >= 2047 {
        return false;
    }
    if e >= 1075 {
        return true;
    }
    let sig = 0x10_0000_0000_0000 + m % 0x10_0000_0000_0000;
    let p = power_of_two(1075 - e);
    sig % p == 0
}

/// Whether a whole double is odd once it is brought into the 64-bit
/// integers.
pub fn bits_odd(bits: u64) -> (b: bool)
    ensures
        b == is_odd(bits),
{
    let m = bits_magnitude(bits);
    if m == 0 {
        return false;
    }
    let e = m / 0x10_0000_0000_0000;
    if e >= 1086 {
        return !bits_negative(bits);
    }
    if e > 1075 || e < 1023 {
        return false;
    }
    let sig = 0x10_0000_0000_0000 + m % 0x10_0000_0000_0000;
    let p = power_of_two(1075 - e);
    (sig / p) % 2 == 1
}

/// The whole number that a whole double stands for, without its sign.
pub open spec fn whole_magnitude(bits: u64) -> nat {
    if is_zero(bits) {
        0
    } else if exponent(bits) >= 1075 {
        (significand(bits) * pow2((exponent(bits) - 1075) as nat)) as nat
    } else {
        (significand(bits) / (pow2((1075 - exponent(bits)) as nat) as int)) as nat
    }
}

/// Whether a number is printed as a whole number: it is one, and less than
/// `10^15` in magnitude.
pub open spec fn prints_whole(bits: u64) -> bool {
    is_whole(bits) && whole_magnitude(bits) < 1_000_000_000_000_000
}

/// A number as it is printed: a whole number below `10^15` in magnitude as
/// its digits without decimals, after a minus sign where the sign bit is
/// set; any other number as the rendering that it carries.
pub open spec fn rendering(n: Numeral) -> Text {
    if prints_whole(n.bits) {
        (if negative(n.bits) {
            seq!['-']
        } else {
            Seq::<char>::empty()
        }) + decimal(whole_magnitude(n.bits))
    } else {
        n.text
    }
}

proof fn lemma_large_whole(bits: u64)
    requires
        !is_zero(bits),
        1073 <= exponent(bits) < 2047,
    ensures
        whole_magnitude(bits) >= 1_000_000_000_000_000,
{
    let e = exponent(bits);
    let sig = significand(bits);
    assert(sig >= 0x10_0000_0000_0000);
    if e >= 1075 {
        let p = pow2((e - 1075) as nat) as int;
        lemma_pow2_grows(0, (e - 1075) as nat);
        assert(p >= 1);
        assert(sig * p >= sig) by (nonlinear_arith)
            requires
                p >= 1,
                sig >= 0,
        ;
        assert(whole_magnitude(bits) == (sig * p) as nat);
    } else if e == 1074 {
        assert(pow2(1) == 2) by {
            reveal_with_fuel(pow2, 3);
        }
        assert(whole_magnitude(bits) == (sig / 2) as nat);
        assert(sig / 2 >= 0x8_0000_0000_0000);
    } else {
        assert(pow2(2) == 4) by {
            reveal_with_fuel(pow2, 3);
        }
        assert(whole_magnitude(bits) == (sig / 4) as nat);
        assert(sig / 4 >= 0x4_0000_0000_0000);
    }
}

/// The magnitude of a number that is printed as a whole number.
pub fn whole_to_print(bits: u64) -> (r: Option<u64>)
    ensures
        match r {
            Some(m) => prints_whole(bits) && m == whole_magnitude(bits),
            None => !prints_whole(bits),
        },
{
    let m = bits_magnitude(bits);
    if m == 0 {
        return Some(0);
    }
    let e = m / 0x10_0000_0000_0000;
    if e < 1023 || e >= 2047 {
        return None;
    }
    if e >= 1073 {
        proof {
            lemma_large_whole(bits);
        }
        return None;
    }
    let sig = 0x10_0000_0000_0000 + m % 0x10_0000_0000_0000;
    let p = power_of_two(1075 - e);
    if sig % p != 0 {
        return None;
    }
    let v = sig / p;
    if v < 1_000_000_000_000_000 {
        Some(v)
    } else {
        None
    }
}

/// What a whole number lacks to `2^52`; nothing where it is at least
/// that.
pub open spec fn room(m: nat) -> nat {
    if m < 0x10_0000_0000_0000 {
        (0x10_0000_0000_0000 - m) as nat
    } else {
        0
    }
}

/// How many times a whole number from `1` to below `2^53` is doubled
/// until it is at least `2^52`.
pub open spec fn shifts(m: nat) -> nat
    decreases room(m),
{
    if m == 0 || m >= 0x10_0000_0000_0000 {
        0
    } else {
        1 + shifts(2 * m)
    }
}

/// The bits of the double that is the whole number `m`, below `2^53`, with
/// the sign bit set where `minus` holds: the number doubled into a
/// significand, and the exponent counted down as often.
pub open spec fn whole_bits(m: nat, minus: bool) -> u64 {
    let sign: int = if minus {
        0x8000_0000_0000_0000
    } else {
        0
    };
    if m == 0 {
        sign as u64
    } else {
        (sign + (1075 - shifts(m)) * 0x10_0000_0000_0000 + (m * pow2(shifts(m))
            - 0x10_0000_0000_0000)) as u64
    }
}

/// The whole number `m`, below `10^15`, as a number, with a minus sign
/// where `minus` holds.
pub open spec fn whole(m: nat, minus: bool) -> Numeral {
    Numeral {
        bits: whole_bits(m, minus),
        text: (if minus {
            seq!['-']
        } else {
            Seq::<char>::empty()
        }) + decimal(m),
    }
}

/// Doubling a whole number as often as [`shifts`] says gives a
/// significand.
pub proof fn lemma_shifts(m: nat)
    requires
        0 < m < 0x20_0000_0000_0000,
    ensures
        0x10_0000_0000_0000 <= m * pow2(shifts(m)) < 0x20_0000_0000_0000,
        shifts(m) <= 52,
    decreases room(m),
{
    if m >= 0x10_0000_0000_0000 {
        assert(pow2(0) == 1);
        assert(m * 1 == m);
    } else {
        lemma_shifts(2 * m);
        let s = shifts(2 * m);
        assert(pow2(s + 1) == 2 * pow2(s));
        assert(m * (2 * pow2(s)) == (2 * m) * pow2(s)) by (nonlinear_arith);
        if shifts(m) > 52 {
            lemma_pow2_grows(53, shifts(m));
            lemma_pow2_52();
            assert(pow2(53) == 2 * pow2(52));
            let p = pow2(shifts(m));
            assert(m * p >= p) by (nonlinear_arith)
                requires
                    m >= 1,
                    p >= 0,
            ;
        }
    }
}

/// The number of doublings that gives a significand is the one that
/// [`shifts`] says.
pub proof fn lemma_shifts_is(m: nat, t: nat)
    requires
        0x10_0000_0000_0000 <= m * pow2(t) < 0x20_0000_0000_0000,
    ensures
        shifts(m) == t,
{
    lemma_shifts_unique(m, t);
}

proof fn lemma_shifts_unique(m: nat, t: nat)
    requires
        0x10_0000_0000_0000 <= m * pow2(t) < 0x20_0000_0000_0000,
    ensures
        shifts(m) == t,
    decreases t,
{
    if t == 0 {
        assert(pow2(0) == 1);
        assert(m * 1 == m);
    } else {
        let p = pow2((t - 1) as nat);
        assert(pow2(t) == 2 * p);
        assert(m * (2 * p) == (2 * m) * p) by (nonlinear_arith);
        lemma_pow2_grows(0, (t - 1) as nat);
        assert(m > 0) by (nonlinear_arith)
            requires
                m * (2 * p) >= 0x10_0000_0000_0000,
        ;
        assert(m < 0x10_0000_0000_0000) by (nonlinear_arith)
            requires
                m * (2 * p) < 0x20_0000_0000_0000,
                p >= 1,
        ;
        lemma_shifts_unique(2 * m, (t - 1) as nat);
    }
}

/// The bits of a whole number stand for that number: the double is whole,
/// has the number as its magnitude, and the sign that was asked for.
pub proof fn lemma_whole_bits(m: nat, minus: bool)
    requires
        m < 0x20_0000_0000_0000,
    ensures
        is_whole(whole_bits(m, minus)),
        whole_magnitude(whole_bits(m, minus)) == m,
        negative(whole_bits(m, minus)) == minus,
        magnitude(whole_bits(m, minus)) == (if m == 0 {
            0
        } else {
            (1075 - shifts(m)) * 0x10_0000_0000_0000 + m * pow2(shifts(m)) - 0x10_0000_0000_0000
        }),
{
    let bits = whole_bits(m, minus);
    let sign: int = if minus {
        0x8000_0000_0000_0000
    } else {
        0
    };
    if m == 0 {
        assert(bits == sign);
    } else {
        lemma_shifts(m);
        let s = shifts(m);
        let sig = (m * pow2(s)) as int;
        let e = 1075 - s;
        let frac = sig - 0x10_0000_0000_0000;
        let rest = e * 0x10_0000_0000_0000 + frac;
        assert(0 < rest < 0x8000_0000_0000_0000);
        assert(bits == sign + rest);
        vstd::arithmetic::div_mod::lemma_fundamental_div_mod_converse(
            bits as int,
            0x8000_0000_0000_0000,
            if minus {
                1
            } else {
                0
            },
            rest,
        );
        assert(magnitude(bits) == rest);
        vstd::arithmetic::div_mod::lemma_fundamental_div_mod_converse(
            rest,
            0x10_0000_0000_0000,
            e,
            frac,
        );
        assert(exponent(bits) == e);
        assert(significand(bits) == sig);
        lemma_pow2_grows(0, s);
        if s == 0 {
            assert(pow2(0) == 1);
            assert(sig * 1 == sig);
            assert(m * 1 == m);
        } else {
            vstd::arithmetic::div_mod::lemma_fundamental_div_mod_converse(
                sig,
                pow2(s) as int,
                m as int,
                0,
            );
        }
    }
}

/// A double that is a whole number below `2^53` has the bits of that
/// number.
pub proof fn lemma_whole_bits_back(bits: u64)
    requires
        is_whole(bits),
        whole_magnitude(bits) < 0x20_0000_0000_0000,
    ensures
        whole_bits(whole_magnitude(bits), negative(bits)) == bits,
{
    let sign: int = if negative(bits) {
        0x8000_0000_0000_0000
    } else {
        0
    };
    let mag = magnitude(bits);
    assert(bits == sign + mag);
    if !is_zero(bits) {
        let e = exponent(bits);
        let frac = mag % 0x10_0000_0000_0000;
        let sig = significand(bits);
        assert(mag == e * 0x10_0000_0000_0000 + frac);
        let m = whole_magnitude(bits);
        if e >= 1075 {
            let p = pow2((e - 1075) as nat) as int;
            lemma_pow2_grows(0, (e - 1075) as nat);
            if e > 1075 {
                lemma_pow2_grows(1, (e - 1075) as nat);
                assert(pow2(1) == 2) by {
                    reveal_with_fuel(pow2, 2);
                }
                assert(sig * p >= 0x20_0000_0000_0000) by (nonlinear_arith)
                    requires
                        sig >= 0x10_0000_0000_0000,
                        p >= 2,
                ;
            }
            assert(e == 1075);
            assert(pow2(0) == 1);
            assert(m == sig) by {
                assert(sig * 1 == sig);
            }
            assert(m * pow2(0) == m) by {
                assert(m * 1 == m);
            }
            lemma_shifts_unique(m, 0);
        } else {
            let t = (1075 - e) as nat;
            let p = pow2(t) as int;
            lemma_pow2_grows(0, t);
            vstd::arithmetic::div_mod::lemma_fundamental_div_mod(sig, p);
            assert(sig == p * m);
            assert(m * pow2(t) == sig) by (nonlinear_arith)
                requires
                    sig == p * m,
                    p == pow2(t),
            ;
            lemma_shifts_unique(m, t);
            assert(m != 0);
        }
    }
}

/// The bits of the double that is the whole number `m`.
pub fn whole_number_bits(m: u64, minus: bool) -> (bits: u64)
    requires
        m < 0x20_0000_0000_0000,
    ensures
        bits == whole_bits(m as nat, minus),
{
    let sign: u64 = if minus {
        0x8000_0000_0000_0000
    } else {
        0
    };
    if m == 0 {
        return sign;
    }
    let mut sig: u64 = m;
    let mut e: u64 = 1075;
    let ghost mut t: nat = 0;
    proof {
        assert(pow2(0) == 1);
        assert(m * 1 == m);
        lemma_shifts(m as nat);
    }
    while sig < 0x10_0000_0000_0000
        invariant
            0 < sig < 0x20_0000_0000_0000,
            sig == m * pow2(t),
            e == 1075 - t,
            shifts(m as nat) == t + shifts(sig as nat),
            shifts(m as nat) <= 52,
        decreases room(sig as nat),
    {
        proof {
            assert(pow2(t + 1) == 2 * pow2(t));
            assert(m * (2 * pow2(t)) == 2 * (m * pow2(t))) by (nonlinear_arith);
            t = t + 1;
        }
        sig = sig * 2;
        e = e - 1;
    }
    sign + e * 0x10_0000_0000_0000 + (sig - 0x10_0000_0000_0000)
}

/// The bits of `0.0`.
pub const ZERO_BITS: u64 = 0;

/// The bits of `1.0`.
pub const ONE_BITS: u64 = 0x3ff0_0000_0000_0000;

/// The bits of `-1.0`.
pub const MINUS_ONE_BITS: u64 = 0xbff0_0000_0000_0000;

/// The number `0`.
pub open spec fn zero() -> Numeral {
    Numeral { bits: ZERO_BITS, text: "0"@ }
}

/// The number `1`.
pub open spec fn one() -> Numeral {
    Numeral { bits: ONE_BITS, text: "1"@ }
}

/// The number `-1`.
pub open spec fn minus_one() -> Numeral {
    Numeral { bits: MINUS_ONE_BITS, text: "-1"@ }
}

/// The number without its sign: the sign bit cleared, a leading `-` of the
/// rendering removed.
pub open spec fn absolute(n: Numeral) -> Numeral {
    Numeral {
        bits: magnitude(n.bits) as u64,
        text: if n.text.len() > 0 && n.text[0] == '-' {
            n.text.skip(1)
        } else {
            n.text
        },
    }
}

/// The bits without the sign.
pub fn bits_magnitude(bits: u64) -> (m: u64)
    ensures
        m == magnitude(bits),
{
    bits % 0x8000_0000_0000_0000
}

/// Whether the double is not a number.
pub fn bits_nan(bits: u64) -> (b: bool)
    ensures
        b == is_nan(bits),
{
    bits_magnitude(bits) > 0x7ff0_0000_0000_0000
}

/// Whether the double is a zero of either sign.
pub fn bits_zero(bits: u64) -> (b: bool)
    ensures
        b == is_zero(bits),
{
    bits_magnitude(bits) == 0
}

/// Whether the sign bit is set.
pub fn bits_negative(bits: u64) -> (b: bool)
    ensures
        b == negative(bits),
{
    bits >= 0x8000_0000_0000_0000
}

/// Equality of doubles on their bits.
pub fn bits_equal(a: u64, b: u64) -> (r: bool)
    ensures
        r == same_number(a, b),
{
    if bits_nan(a) || bits_nan(b) {
        false
    } else if bits_magnitude(a) != bits_magnitude(b) {
        false
    } else {
        bits_magnitude(a) == 0 || bits_negative(a) == bits_negative(b)
    }
}

/// `a < b` of doubles on their bits.
pub fn bits_less(a: u64, b: u64) -> (r: bool)
    ensures
        r == less(a, b),
{
    if bits_nan(a) || bits_nan(b) {
        false
    } else {
        let ma = bits_magnitude(a);
        let mb = bits_magnitude(b);
        if bits_negative(a) {
            if bits_negative(b) {
                ma > mb
            } else {
                ma > 0 || mb > 0
            }
        } else {
            if bits_negative(b) {
                false
            } else {
                ma < mb
            }
        }
    }
}

impl Number {
    /// The number `0`.
    pub fn zero() -> (n: Number)
        ensures
            n@ == zero(),
    {
        Number { bits: ZERO_BITS, text: owned("0") }
    }

    /// The number `1`.
    pub fn one() -> (n: Number)
        ensures
            n@ == one(),
    {
        Number { bits: ONE_BITS, text: owned("1") }
    }

    /// The number `-1`.
    pub fn minus_one() -> (n: Number)
        ensures
            n@ == minus_one(),
    {
        Number { bits: MINUS_ONE_BITS, text: owned("-1") }
    }

    /// The number without its sign.
    pub fn abs(&self) -> (n: Number)
        ensures
            n@ == absolute(self@),
    {
        let chars = crate::text::chars_of(self.text.as_str());
        let text = if chars.len() > 0 && chars[0] == '-' {
            let t = crate::text::string_from(&chars, 1, chars.len());
            assert(chars@.subrange(1, chars@.len() as int) =~= chars@.skip(1));
            t
        } else {
            self.text.clone()
        };
        Number { bits: bits_magnitude(self.bits), text }
    }
}

} // verus!
