//! A hash of values that agrees with their equality.
//!
//! Every value has a hash. Equal values have the same hash: the two zeros
//! hash alike, a map hashes the same whatever the order of its entries, and
//! all functions hash alike.
use vstd::prelude::*;
use crate::env::{find_entry, lookup, names};
use crate::equality::{same, same_entries};
use crate::number::{bits_magnitude, bits_negative, magnitude, negative, same_number};
use crate::text::{chars_of, first_index, lemma_first_index, Text};
use crate::value::{entries, forms, lemma_views, Form, Value};

verus! {

/// Two hashes made one: the first times a prime, plus the second, in
/// 64-bit arithmetic that wraps around.
pub open spec fn mix(a: u64, b: u64) -> u64 {
    ((a as int * 0x100_0000_01b3 + b as int) % 0x1_0000_0000_0000_0000) as u64
}

/// The hash of the first `n` characters of a text.
pub open spec fn text_digest(s: Text, n: nat) -> u64
    decreases n,
{
    if n == 0 || n > s.len() {
        0xcbf2_9ce4_8422_2325
    } else {
        mix(text_digest(s, (n - 1) as nat), s[n - 1] as u64)
    }
}

/// The hash of a number: of its magnitude and, unless it is a zero, its
/// sign.
pub open spec fn number_digest(bits: u64) -> u64 {
    mix(
        (magnitude(bits) % 0x1_0000_0000_0000_0000) as u64,
        if negative(bits) && magnitude(bits) != 0 {
            1
        } else {
            0
        },
    )
}

/// The hash of a value.
pub open spec fn digest(f: Form) -> u64
    decreases f, 0nat,
{
    match f {
        Form::Symbol(s) => mix(0, text_digest(s, s.len())),
        Form::Number(n) => mix(1, number_digest(n.bits)),
        Form::Bool(b) => mix(
            2,
            if b {
                1
            } else {
                0
            },
        ),
        Form::Nil => mix(3, 0),
        Form::Str(s) => mix(4, text_digest(s, s.len())),
        Form::List(items) => mix(5, items_digest(items, items.len())),
        Form::Vector(items) => mix(6, items_digest(items, items.len())),
        Form::Dict(pairs) => mix(7, entries_digest(pairs, pairs.len())),
        Form::Keyword(s) => mix(8, text_digest(s, s.len())),
        Form::Function(_) => mix(9, 0),
        Form::IOResource(_) => mix(10, 0),
        Form::Uninitialized => mix(11, 0),
    }
}

/// The hash of the first `n` of `items`, in order.
pub open spec fn items_digest(items: Seq<Form>, n: nat) -> u64
    decreases items, n,
{
    if n == 0 || n > items.len() {
        0
    } else {
        mix(items_digest(items, (n - 1) as nat), digest(items[n - 1]))
    }
}

/// The hash of one entry of a map.
pub open spec fn entry_digest(key: Text, value: u64) -> u64 {
    mix(text_digest(key, key.len()), value)
}

/// The hash of the first `n` entries of a map: the greatest of the hashes
/// of the entries, an entry counting where its key occurs for the first
/// time. It does not depend on the order of the entries.
pub open spec fn entries_digest(pairs: Seq<(Text, Form)>, n: nat) -> u64
    decreases pairs, n,
{
    if n == 0 || n > pairs.len() {
        0
    } else {
        let before = entries_digest(pairs, (n - 1) as nat);
        if first_index(names(pairs), pairs[n - 1].0) == n - 1 {
            let here = entry_digest(pairs[n - 1].0, digest(pairs[n - 1].1));
            if here > before {
                here
            } else {
                before
            }
        } else {
            before
        }
    }
}

/// The hash of an entry that counts is at most the hash of the entries.
proof fn lemma_entry_below(pairs: Seq<(Text, Form)>, n: nat, i: int)
    requires
        0 <= i < n <= pairs.len(),
        first_index(names(pairs), pairs[i].0) == i,
    ensures
        entry_digest(pairs[i].0, digest(pairs[i].1)) <= entries_digest(pairs, n),
    decreases n,
{
    if i < n - 1 {
        lemma_entry_below(pairs, (n - 1) as nat, i);
    }
}

/// The hash of the entries is zero or the hash of an entry that counts.
proof fn lemma_entry_reached(pairs: Seq<(Text, Form)>, n: nat) -> (i: int)
    requires
        n <= pairs.len(),
        entries_digest(pairs, n) != 0,
    ensures
        0 <= i < n,
        first_index(names(pairs), pairs[i].0) == i,
        entry_digest(pairs[i].0, digest(pairs[i].1)) == entries_digest(pairs, n),
    decreases n,
{
    let before = entries_digest(pairs, (n - 1) as nat);
    if first_index(names(pairs), pairs[n - 1].0) == n - 1 && entry_digest(
        pairs[n - 1].0,
        digest(pairs[n - 1].1),
    ) > before {
        n - 1
    } else {
        lemma_entry_reached(pairs, (n - 1) as nat)
    }
}

/// Equal numbers have the same hash.
proof fn lemma_number_digest(a: u64, b: u64)
    requires
        same_number(a, b),
    ensures
        number_digest(a) == number_digest(b),
{
}

/// Equal values have the same hash.
pub proof fn law_equal_values_hash_alike(a: Form, b: Form)
    requires
        same(a, b),
    ensures
        digest(a) == digest(b),
    decreases a, 0nat,
{
    match (a, b) {
        (Form::Number(x), Form::Number(y)) => {
            lemma_number_digest(x.bits, y.bits);
        },
        (Form::List(x), Form::List(y)) => {
            lemma_items_alike(x, y, x.len());
        },
        (Form::Vector(x), Form::Vector(y)) => {
            lemma_items_alike(x, y, x.len());
        },
        (Form::Dict(x), Form::Dict(y)) => {
            lemma_entries_below(x, y);
            lemma_entries_above(x, y);
        },
        _ => {},
    }
}

proof fn lemma_items_alike(x: Seq<Form>, y: Seq<Form>, n: nat)
    requires
        x.len() == y.len(),
        n <= x.len(),
        forall|i: int| 0 <= i < x.len() ==> same(#[trigger] x[i], y[i]),
    ensures
        items_digest(x, n) == items_digest(y, n),
    decreases x, n,
{
    if n > 0 {
        lemma_items_alike(x, y, (n - 1) as nat);
        law_equal_values_hash_alike(x[n - 1], y[n - 1]);
    }
}

/// Of two equal maps, the hash of the first is at most the hash of the
/// second.
proof fn lemma_entries_below(x: Seq<(Text, Form)>, y: Seq<(Text, Form)>)
    requires
        same_entries(x, y),
    ensures
        entries_digest(x, x.len()) <= entries_digest(y, y.len()),
    decreases x, 1nat,
{
    if entries_digest(x, x.len()) != 0 {
        let i = lemma_entry_reached(x, x.len());
        let key = x[i].0;
        let j = first_index(names(y), key);
        lemma_first_index(names(y), key);
        assert(lookup(y, key) is Some);
        assert(names(y)[j] == y[j].0);
        law_equal_values_hash_alike(x[i].1, y[j].1);
        lemma_entry_below(y, y.len(), j);
    }
}

/// Of two equal maps, the hash of the second is at most the hash of the
/// first.
proof fn lemma_entries_above(x: Seq<(Text, Form)>, y: Seq<(Text, Form)>)
    requires
        same_entries(x, y),
    ensures
        entries_digest(y, y.len()) <= entries_digest(x, x.len()),
    decreases x, 1nat,
{
    if entries_digest(y, y.len()) != 0 {
        let j = lemma_entry_reached(y, y.len());
        let key = y[j].0;
        assert(lookup(x, key) is Some);
        let i = first_index(names(x), key);
        lemma_first_index(names(x), key);
        assert(names(x)[i] == x[i].0);
        assert(x[i].0 == key);
        assert(lookup(y, x[i].0) == Some(y[j].1));
        law_equal_values_hash_alike(x[i].1, y[j].1);
        lemma_entry_below(x, x.len(), i);
    }
}

/// Two hashes made one.
pub fn mix_hashes(a: u64, b: u64) -> (r: u64)
    ensures
        r == mix(a, b),
{
    let wide: u128 = (a as u128) * 0x100_0000_01b3u128 + (b as u128);
    (wide % 0x1_0000_0000_0000_0000u128) as u64
}

/// The hash of a text.
pub fn hash_text(s: &str) -> (r: u64)
    ensures
        r == text_digest(s@, s@.len()),
{
    let chars = chars_of(s);
    let mut h: u64 = 0xcbf2_9ce4_8422_2325;
    let mut i: usize = 0;
    while i < chars.len()
        invariant
            i <= chars.len(),
            chars@ == s@,
            h == text_digest(chars@, i as nat),
        decreases chars.len() - i,
    {
        h = mix_hashes(h, chars[i] as u64);
        i += 1;
    }
    h
}

/// The hash of a number.
pub fn hash_number(bits: u64) -> (r: u64)
    ensures
        r == number_digest(bits),
{
    let m = bits_magnitude(bits);
    let sign: u64 = if bits_negative(bits) && m != 0 {
        1
    } else {
        0
    };
    mix_hashes(m, sign)
}

fn hash_items(items: &Vec<Value>) -> (r: u64)
    ensures
        r == items_digest(forms(items@), items@.len()),
    decreases items,
{
    let mut h: u64 = 0;
    let mut i: usize = 0;
    while i < items.len()
        invariant
            i <= items.len(),
            h == items_digest(forms(items@), i as nat),
        decreases items.len() - i,
    {
        let here = hash_value(&items[i]);
        assert(forms(items@)[i as int] == items@[i as int]@);
        h = mix_hashes(h, here);
        i += 1;
    }
    h
}

fn hash_entries(pairs: &Vec<(String, Value)>) -> (r: u64)
    ensures
        r == entries_digest(entries(pairs@), pairs@.len()),
    decreases pairs,
{
    let mut h: u64 = 0;
    let mut i: usize = 0;
    while i < pairs.len()
        invariant
            i <= pairs.len(),
            h == entries_digest(entries(pairs@), i as nat),
        decreases pairs.len() - i,
    {
        assert(entries(pairs@)[i as int] == (pairs@[i as int].0@, pairs@[i as int].1@));
        if find_entry(pairs, pairs[i].0.as_str()) == i {
            let here = mix_hashes(hash_text(pairs[i].0.as_str()), hash_value(&pairs[i].1));
            if here > h {
                h = here;
            }
        }
        i += 1;
    }
    h
}

/// The hash of a value.
pub fn hash_value(v: &Value) -> (r: u64)
    ensures
        r == digest(v@),
    decreases v,
{
    proof {
        lemma_views(*v);
    }
    match v {
        Value::Symbol(s) => mix_hashes(0, hash_text(s.as_str())),
        Value::Number(n) => mix_hashes(1, hash_number(n.bits)),
        Value::Bool(b) => mix_hashes(
            2,
            if *b {
                1
            } else {
                0
            },
        ),
        Value::Nil => mix_hashes(3, 0),
        Value::Str(s) => mix_hashes(4, hash_text(s.as_str())),
        Value::List(items) => mix_hashes(5, hash_items(items)),
        Value::Vector(items) => mix_hashes(6, hash_items(items)),
        Value::Dict(pairs) => mix_hashes(7, hash_entries(pairs)),
        Value::Keyword(s) => mix_hashes(8, hash_text(s.as_str())),
        Value::Function(_) => mix_hashes(9, 0),
        Value::IOResource(_) => mix_hashes(10, 0),
        Value::Uninitialized => mix_hashes(11, 0),
    }
}

impl Value {
    /// The hash of the value. Equal values have the same hash.
    pub fn hash_code(&self) -> (r: u64)
        ensures
            r == digest(self@),
    {
        hash_value(self)
    }
}

} // verus!
