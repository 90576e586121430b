//! Character-level helpers shared by the reader, the printer and the evaluator.
//!
//! Every text in a contract is a `Seq<char>`; the functions here move between
//! `String`, `Vec<char>` and that model.
use vstd::prelude::*;
use vstd::std_specs::iter::IteratorSpec;

verus! {

/// A text as contracts see it.
pub type Text = Seq<char>;

/// `String::push` of the standard library: the character is appended and
/// nothing else changes.
pub assume_specification[ String::push ](s: &mut String, c: char)
    ensures
        final(s)@ == old(s)@.push(c),
;

/// `str == str` of the standard library (`PartialEq::eq`): two string slices
/// are equal exactly when they hold the same characters.
pub assume_specification[ <str as PartialEq>::eq ](a: &str, b: &str) -> (r: bool)
    ensures
        r == (a@ == b@),
;

/// The characters of `s`, in order.
pub fn chars_of(s: &str) -> (r: Vec<char>)
    ensures
        r@ == s@,
{
    let mut out: Vec<char> = Vec::new();
    for c in it: s.chars()
        invariant
            out@ == it.seq().take(it.index() as int),
            it.seq() == s@,
    {
        out.push(c);
        assert(it.seq().take(it.index() + 1) =~= it.seq().take(it.index() as int).push(c));
    }
    assert(out@ =~= s@);
    out
}

/// The string made of `v[from..to]`.
pub fn string_from(v: &Vec<char>, from: usize, to: usize) -> (r: String)
    requires
        from <= to <= v@.len(),
    ensures
        r@ == v@.subrange(from as int, to as int),
{
    let mut out = String::new();
    let mut i: usize = from;
    assert(v@.subrange(from as int, from as int) =~= Seq::<char>::empty());
    while i < to
        invariant
            from <= i <= to <= v@.len(),
            out@ == v@.subrange(from as int, i as int),
        decreases to - i,
    {
        out.push(v[i]);
        assert(v@.subrange(from as int, i + 1) =~= v@.subrange(from as int, i as int).push(
            v@[i as int],
        ));
        i += 1;
    }
    out
}

/// The string made of all of `v`.
pub fn string_of(v: &Vec<char>) -> (r: String)
    ensures
        r@ == v@,
{
    let r = string_from(v, 0, v.len());
    assert(v@.subrange(0, v@.len() as int) =~= v@);
    r
}

/// A fresh string holding the characters of `s`.
pub fn owned(s: &str) -> (r: String)
    ensures
        r@ == s@,
{
    String::from_str(s)
}

/// `a` followed by `b`.
pub fn join2(a: &str, b: &str) -> (r: String)
    ensures
        r@ == a@ + b@,
{
    let mut out = String::from_str(a);
    out.append(b);
    out
}

/// `a`, `b` and `c` one after the other.
pub fn join3(a: &str, b: &str, c: &str) -> (r: String)
    ensures
        r@ == a@ + b@ + c@,
{
    let mut out = String::from_str(a);
    out.append(b);
    out.append(c);
    out
}

/// The position of the first item equal to `c` in `s`, or `s.len()` when
/// there is none.
pub open spec fn first_index<T>(s: Seq<T>, c: T) -> int
    decreases s.len(),
{
    if s.len() == 0 {
        0
    } else if s[0] == c {
        0
    } else {
        1 + first_index(s.drop_first(), c)
    }
}

/// The position just after the last `c` in `s`, or `0` when there is none.
pub open spec fn after_last<T>(s: Seq<T>, c: T) -> int
    decreases s.len(),
{
    if s.len() == 0 {
        0
    } else if s.last() == c {
        s.len() as int
    } else {
        after_last(s.drop_last(), c)
    }
}

/// The first index lies within bounds, holds the item where it is not the
/// length, and no earlier position holds the item.
pub proof fn lemma_first_index<T>(s: Seq<T>, c: T)
    ensures
        0 <= first_index(s, c) <= s.len(),
        first_index(s, c) < s.len() ==> s[first_index(s, c)] == c,
        forall|j: int| 0 <= j < first_index(s, c) ==> s[j] != c,
    decreases s.len(),
{
    if s.len() > 0 && s[0] != c {
        lemma_first_index(s.drop_first(), c);
        assert forall|j: int| 0 <= j < first_index(s, c) implies s[j] != c by {
            if j > 0 {
                assert(s[j] == s.drop_first()[j - 1]);
            }
        }
    }
}

/// A position is the first index where it holds the item, or is the length,
/// and no earlier position holds the item.
pub proof fn lemma_first_index_is<T>(s: Seq<T>, c: T, i: int)
    requires
        0 <= i <= s.len(),
        i < s.len() ==> s[i] == c,
        forall|j: int| 0 <= j < i ==> s[j] != c,
    ensures
        first_index(s, c) == i,
    decreases s.len(),
{
    if s.len() > 0 && i > 0 {
        assert(s[0] != c);
        let t = s.drop_first();
        assert forall|j: int| 0 <= j < i - 1 implies t[j] != c by {
            assert(t[j] == s[j + 1]);
        }
        lemma_first_index_is(t, c, i - 1);
    }
}

/// A position is the one after the last item where the item stands right
/// before it, or it is zero, and no later position holds the item.
pub proof fn lemma_after_last_is<T>(s: Seq<T>, c: T, i: int)
    requires
        0 <= i <= s.len(),
        i > 0 ==> s[i - 1] == c,
        forall|j: int| i <= j < s.len() ==> s[j] != c,
    ensures
        after_last(s, c) == i,
    decreases s.len(),
{
    if s.len() > 0 && i < s.len() {
        assert(s.last() != c);
        let t = s.drop_last();
        lemma_after_last_is(t, c, i);
    }
}

/// The position after the last item lies within bounds.
pub proof fn lemma_after_last<T>(s: Seq<T>, c: T)
    ensures
        0 <= after_last(s, c) <= s.len(),
    decreases s.len(),
{
    if s.len() > 0 && s.last() != c {
        lemma_after_last(s.drop_last(), c);
    }
}

/// Whether `c` occurs in `s`.
pub open spec fn has_item<T>(s: Seq<T>, c: T) -> bool {
    first_index(s, c) < s.len()
}

/// The position of the first `c` in `v`, or `v.len()` when there is none.
pub fn find_char(v: &Vec<char>, c: char) -> (i: usize)
    ensures
        i == first_index(v@, c),
{
    let mut i: usize = 0;
    while i < v.len() && v[i] != c
        invariant
            i <= v.len(),
            forall|j: int| 0 <= j < i ==> v@[j] != c,
        decreases v.len() - i,
    {
        i += 1;
    }
    proof {
        lemma_first_index_is(v@, c, i as int);
    }
    i
}

/// The position just after the last `c` in `v`, or `0` when there is none.
pub fn find_after_last(v: &Vec<char>, c: char) -> (i: usize)
    ensures
        i == after_last(v@, c),
{
    let mut i: usize = v.len();
    while i > 0 && v[i - 1] != c
        invariant
            i <= v.len(),
            forall|j: int| i <= j < v@.len() ==> v@[j] != c,
        decreases i,
    {
        i -= 1;
    }
    proof {
        lemma_after_last_is(v@, c, i as int);
    }
    i
}

/// The decimal digit for `d`.
pub open spec fn digit_char(d: nat) -> char {
    if d == 0 {
        '0'
    } else if d == 1 {
        '1'
    } else if d == 2 {
        '2'
    } else if d == 3 {
        '3'
    } else if d == 4 {
        '4'
    } else if d == 5 {
        '5'
    } else if d == 6 {
        '6'
    } else if d == 7 {
        '7'
    } else if d == 8 {
        '8'
    } else {
        '9'
    }
}

/// The decimal digits of `n`, most significant first; `"0"` for zero.
pub open spec fn decimal(n: nat) -> Text
    decreases n,
{
    if n < 10 {
        seq![digit_char(n)]
    } else {
        decimal(n / 10).push(digit_char(n % 10))
    }
}

fn digit(d: usize) -> (c: char)
    requires
        d < 10,
    ensures
        c == digit_char(d as nat),
{
    if d == 0 {
        '0'
    } else if d == 1 {
        '1'
    } else if d == 2 {
        '2'
    } else if d == 3 {
        '3'
    } else if d == 4 {
        '4'
    } else if d == 5 {
        '5'
    } else if d == 6 {
        '6'
    } else if d == 7 {
        '7'
    } else if d == 8 {
        '8'
    } else {
        '9'
    }
}

/// A 64-bit `n` written in decimal.
pub fn decimal_of(n: u64) -> (r: String)
    ensures
        r@ == decimal(n as nat),
    decreases n,
{
    if n < 10 {
        let mut out = String::new();
        out.push(digit(n as usize));
        assert(out@ =~= seq![digit_char(n as nat)]);
        out
    } else {
        let mut out = decimal_of(n / 10);
        out.push(digit((n % 10) as usize));
        out
    }
}

/// `n` written in decimal.
pub fn decimal_string(n: usize) -> (r: String)
    ensures
        r@ == decimal(n as nat),
    decreases n,
{
    if n < 10 {
        let mut out = String::new();
        out.push(digit(n));
        assert(out@ =~= seq![digit_char(n as nat)]);
        out
    } else {
        let mut out = decimal_string(n / 10);
        out.push(digit(n % 10));
        out
    }
}

/// What a decimal digit counts for.
pub open spec fn digit_value(c: char) -> nat {
    if '0' <= c <= '9' {
        (c as int - '0' as int) as nat
    } else {
        0
    }
}

/// The number that the first `n` characters of `t`, decimal digits, spell.
pub open spec fn decimal_value(t: Text, n: nat) -> nat
    decreases n,
{
    if n == 0 || n > t.len() {
        0
    } else {
        decimal_value(t, (n - 1) as nat) * 10 + digit_value(t[n - 1])
    }
}

/// Ten to the power `k`.
pub open spec fn pow10(k: nat) -> nat
    decreases k,
{
    if k == 0 {
        1
    } else {
        10 * pow10((k - 1) as nat)
    }
}

/// The number that digits spell depends on the digits only.
pub proof fn lemma_decimal_value_prefix(t: Text, u: Text, n: nat)
    requires
        n <= t.len(),
        n <= u.len(),
        forall|i: int| 0 <= i < n ==> t[i] == u[i],
    ensures
        decimal_value(t, n) == decimal_value(u, n),
    decreases n,
{
    if n > 0 {
        lemma_decimal_value_prefix(t, u, (n - 1) as nat);
    }
}

/// The digits of a number are digits, at least one, and spell the number.
pub proof fn lemma_decimal(m: nat)
    ensures
        decimal(m).len() > 0,
        forall|i: int| 0 <= i < decimal(m).len() ==> '0' <= #[trigger] decimal(m)[i] <= '9',
        decimal_value(decimal(m), decimal(m).len()) == m,
    decreases m,
{
    let all = decimal(m);
    if m >= 10 {
        lemma_decimal(m / 10);
        let before = decimal(m / 10);
        assert(all == before.push(digit_char(m % 10)));
        assert forall|i: int| 0 <= i < all.len() implies '0' <= #[trigger] all[i] <= '9' by {
            if i < before.len() {
                assert(all[i] == before[i]);
            }
        }
        lemma_decimal_value_prefix(all, before, before.len());
        assert(digit_value(digit_char(m % 10)) == m % 10);
        assert(decimal_value(all, all.len()) == decimal_value(all, before.len()) * 10
            + digit_value(all[all.len() - 1]));
    } else {
        assert(all.len() == 1);
        assert(digit_value(digit_char(m)) == m);
        assert(decimal_value(all, 0) == 0);
    }
}

/// A number below ten to the power `k` has at most `k` digits.
pub proof fn lemma_decimal_length(m: nat, k: nat)
    requires
        k >= 1,
        m < pow10(k),
    ensures
        decimal(m).len() <= k,
    decreases k,
{
    if m >= 10 {
        if k == 1 {
            assert(pow10(1) == 10) by {
                reveal_with_fuel(pow10, 2);
            }
        } else {
            lemma_decimal_length(m / 10, (k - 1) as nat);
        }
    }
}

/// Digits, `n` of them, spell a number below ten to the power `n`.
pub proof fn lemma_decimal_value_bound(t: Text, n: nat)
    requires
        n <= t.len(),
    ensures
        decimal_value(t, n) < pow10(n),
    decreases n,
{
    if n > 0 {
        lemma_decimal_value_bound(t, (n - 1) as nat);
        assert(digit_value(t[n - 1]) <= 9);
    }
}

/// Ten to the power fifteen.
pub proof fn lemma_pow10_15()
    ensures
        pow10(15) == 1_000_000_000_000_000,
{
    reveal_with_fuel(pow10, 16);
}

/// The number that the digits `chars[from..to]`, at most fifteen, spell.
pub fn parse_decimal(chars: &Vec<char>, from: usize, to: usize) -> (r: u64)
    requires
        from <= to <= chars@.len(),
        to - from <= 15,
        forall|i: int| from <= i < to ==> '0' <= #[trigger] chars@[i] <= '9',
    ensures
        r == decimal_value(chars@.subrange(from as int, to as int), (to - from) as nat),
        r < 1_000_000_000_000_000,
{
    let ghost t = chars@.subrange(from as int, to as int);
    let mut value: u64 = 0;
    let mut i: usize = from;
    proof {
        lemma_pow10_15();
    }
    while i < to
        invariant
            from <= i <= to <= chars@.len(),
            to - from <= 15,
            t == chars@.subrange(from as int, to as int),
            forall|j: int| from <= j < to ==> '0' <= #[trigger] chars@[j] <= '9',
            value == decimal_value(t, (i - from) as nat),
            value < pow10((i - from) as nat),
            pow10(15) == 1_000_000_000_000_000,
        decreases to - i,
    {
        let c = chars[i];
        assert(t[i - from] == c);
        proof {
            lemma_decimal_value_bound(t, (i - from) as nat);
            lemma_pow10_grows((i - from) as nat, 14);
            assert(pow10(15) == 10 * pow10(14));
            lemma_decimal_value_bound(t, (i - from + 1) as nat);
        }
        let d: u64 = (c as u64) - ('0' as u64);
        value = value * 10 + d;
        i += 1;
    }
    proof {
        lemma_pow10_grows((to - from) as nat, 15);
    }
    value
}

/// Powers of ten grow with the exponent.
pub proof fn lemma_pow10_grows(k: nat, m: nat)
    requires
        k <= m,
    ensures
        1 <= pow10(k) <= pow10(m),
    decreases m,
{
    if k < m {
        lemma_pow10_grows(k, (m - 1) as nat);
    } else if k > 0 {
        lemma_pow10_grows((k - 1) as nat, (k - 1) as nat);
    }
}

} // verus!
