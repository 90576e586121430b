//! The printer: a form as source text.
use vstd::prelude::*;
use crate::reader::{is_symbol_char, symbol_char};
use crate::number::{bits_negative, rendering, whole_to_print};
use crate::text::{chars_of, decimal_of, Text};
use crate::value::{entries, forms, lemma_views, texts, Closure, Form, Function, IOResource, Value};

verus! {

/// How one character of a string is written inside quotes.
pub open spec fn escape_char(c: char) -> Text {
    if c == '\\' {
        seq!['\\', '\\']
    } else if c == '"' {
        seq!['\\', '"']
    } else {
        seq![c]
    }
}

/// The first `n` characters of `s`, each written as inside quotes.
pub open spec fn escape_upto(s: Text, n: nat) -> Text
    decreases n,
{
    if n == 0 || n > s.len() {
        Seq::empty()
    } else {
        escape_upto(s, (n - 1) as nat) + escape_char(s[n - 1])
    }
}

/// `s` between quotes, with `\` and `"` escaped.
pub open spec fn quoted(s: Text) -> Text {
    seq!['"'] + escape_upto(s, s.len()) + seq!['"']
}

/// The first `n` of `parts` with one space between neighbours.
pub open spec fn spaced(parts: Seq<Text>, n: nat) -> Text
    decreases n,
{
    if n == 0 || n > parts.len() {
        Seq::empty()
    } else if n == 1 {
        parts[0]
    } else {
        spaced(parts, (n - 1) as nat) + seq![' '] + parts[n - 1]
    }
}

/// Whether the first `n` characters of `s` may all stand in a symbol.
pub open spec fn symbolic_upto(s: Text, n: nat) -> bool
    decreases n,
{
    if n == 0 || n > s.len() {
        true
    } else {
        symbolic_upto(s, (n - 1) as nat) && symbol_char(s[n - 1])
    }
}

/// How a map key is written: as a keyword where it can be read back as
/// one, between quotes otherwise.
pub open spec fn show_key(k: Text) -> Text {
    if k.len() > 0 && symbolic_upto(k, k.len()) {
        seq![':'] + k
    } else {
        quoted(k)
    }
}

/// An I/O resource as source text: its sort between `#<` and `>`.
pub open spec fn show_resource(r: IOResource) -> Text {
    match r {
        IOResource::Reader(_) => "#<reader>"@,
        IOResource::Writer(_) => "#<writer>"@,
        IOResource::InputStream(_) => "#<input-stream>"@,
        IOResource::OutputStream(_) => "#<output-stream>"@,
    }
}

/// A function as source text: its sort and, for a function or macro of the
/// user, its parameters.
pub open spec fn show_closure(c: Closure) -> Text {
    match c {
        Closure::Native(_) => "#<native-function>"@,
        Closure::UserDefined { params, .. } => "#<function("@ + spaced(params, params.len())
            + ")>"@,
        Closure::Macro { params, .. } => "#<macro("@ + spaced(params, params.len()) + ")>"@,
    }
}

/// A form as source text.
pub open spec fn show(f: Form) -> Text
    decreases f, 0nat,
{
    match f {
        Form::Symbol(s) => s,
        Form::Number(n) => rendering(n),
        Form::Bool(b) => if b {
            "true"@
        } else {
            "false"@
        },
        Form::Nil => "nil"@,
        Form::Str(s) => quoted(s),
        Form::List(items) => seq!['('] + show_items(items, items.len()) + seq![')'],
        Form::Vector(items) => seq!['['] + show_items(items, items.len()) + seq![']'],
        Form::Dict(pairs) => seq!['{'] + show_entries(pairs, pairs.len()) + seq!['}'],
        Form::Keyword(s) => seq![':'] + s,
        Form::Function(c) => show_closure(c),
        Form::IOResource(r) => show_resource(r),
        Form::Uninitialized => "#<uninitialized>"@,
    }
}

/// The first `n` of `items` as source text, one space between neighbours.
pub open spec fn show_items(items: Seq<Form>, n: nat) -> Text
    decreases items, n,
{
    if n == 0 || n > items.len() {
        Seq::empty()
    } else if n == 1 {
        show(items[0])
    } else {
        show_items(items, (n - 1) as nat) + seq![' '] + show(items[n - 1])
    }
}

/// The first `n` of `pairs` as source text: key, space, value, and one
/// space between neighbours.
pub open spec fn show_entries(pairs: Seq<(Text, Form)>, n: nat) -> Text
    decreases pairs, n,
{
    if n == 0 || n > pairs.len() {
        Seq::empty()
    } else if n == 1 {
        show_key(pairs[0].0) + seq![' '] + show(pairs[0].1)
    } else {
        show_entries(pairs, (n - 1) as nat) + seq![' '] + show_key(pairs[n - 1].0) + seq![' ']
            + show(pairs[n - 1].1)
    }
}

/// Appends `s`, written as inside quotes but without them, to `out`.
fn push_escaped(out: &mut String, s: &str)
    ensures
        final(out)@ == old(out)@ + escape_upto(s@, s@.len()),
{
    let chars = chars_of(s);
    let mut i: usize = 0;
    assert(out@ + escape_upto(chars@, 0) =~= out@);
    while i < chars.len()
        invariant
            i <= chars.len(),
            chars@ == s@,
            out@ == old(out)@ + escape_upto(chars@, i as nat),
        decreases chars.len() - i,
    {
        let c = chars[i];
        let ghost before = out@;
        if c == '\\' {
            out.push('\\');
            out.push('\\');
        } else if c == '"' {
            out.push('\\');
            out.push('"');
        } else {
            out.push(c);
        }
        assert(out@ =~= before + escape_char(c));
        assert(old(out)@ + (escape_upto(chars@, i as nat) + escape_char(c)) =~= before
            + escape_char(c));
        i += 1;
    }
}

/// Appends `s` between quotes to `out`.
fn push_quoted(out: &mut String, s: &str)
    ensures
        final(out)@ == old(out)@ + quoted(s@),
{
    out.push('"');
    push_escaped(out, s);
    out.push('"');
    assert(out@ =~= old(out)@ + quoted(s@));
}

/// Whether every character of `s` may stand in a symbol.
fn is_symbolic(s: &str) -> (b: bool)
    ensures
        b == symbolic_upto(s@, s@.len()),
{
    let chars = chars_of(s);
    let mut i: usize = 0;
    while i < chars.len()
        invariant
            i <= chars.len(),
            chars@ == s@,
            symbolic_upto(chars@, i as nat),
        decreases chars.len() - i,
    {
        if !is_symbol_char(chars[i]) {
            proof {
                lemma_not_symbolic(chars@, (i + 1) as nat, chars@.len());
            }
            return false;
        }
        i += 1;
    }
    true
}

proof fn lemma_not_symbolic(s: Text, n: nat, m: nat)
    requires
        n <= m <= s.len(),
        !symbolic_upto(s, n),
    ensures
        !symbolic_upto(s, m),
    decreases m - n,
{
    if n < m {
        lemma_not_symbolic(s, n, (m - 1) as nat);
    }
}

fn push_key(out: &mut String, k: &str)
    ensures
        final(out)@ == old(out)@ + show_key(k@),
{
    if k.unicode_len() > 0 && is_symbolic(k) {
        out.push(':');
        out.append(k);
        assert(out@ =~= old(out)@ + show_key(k@));
    } else {
        push_quoted(out, k);
    }
}

/// Appends the strings of `parts`, one space between neighbours, to `out`.
pub fn push_spaced(out: &mut String, parts: &Vec<String>)
    ensures
        final(out)@ == old(out)@ + spaced(texts(parts@), parts@.len()),
{
    let mut i: usize = 0;
    assert(out@ + spaced(texts(parts@), 0) =~= out@);
    while i < parts.len()
        invariant
            i <= parts.len(),
            out@ == old(out)@ + spaced(texts(parts@), i as nat),
        decreases parts.len() - i,
    {
        let ghost before = out@;
        if i > 0 {
            out.push(' ');
        }
        out.append(parts[i].as_str());
        assert(out@ =~= old(out)@ + spaced(texts(parts@), (i + 1) as nat)) by {
            if i > 0 {
                assert(out@ =~= before + seq![' '] + parts@[i as int]@);
            } else {
                assert(out@ =~= before + parts@[i as int]@);
                assert(before =~= old(out)@);
            }
        }
        i += 1;
    }
}

fn push_function(out: &mut String, f: &Function)
    ensures
        final(out)@ == old(out)@ + show_closure(f@),
{
    match f {
        Function::Native(_) => {
            out.append("#<native-function>");
        },
        Function::UserDefined { params, .. } => {
            out.append("#<function(");
            push_spaced(out, params);
            out.append(")>");
            assert(out@ =~= old(out)@ + show_closure(f@));
        },
        Function::Macro { params, .. } => {
            out.append("#<macro(");
            push_spaced(out, params);
            out.append(")>");
            assert(out@ =~= old(out)@ + show_closure(f@));
        },
    }
}

fn push_resource(out: &mut String, r: &IOResource)
    ensures
        final(out)@ == old(out)@ + show_resource(*r),
{
    match r {
        IOResource::Reader(_) => out.append("#<reader>"),
        IOResource::Writer(_) => out.append("#<writer>"),
        IOResource::InputStream(_) => out.append("#<input-stream>"),
        IOResource::OutputStream(_) => out.append("#<output-stream>"),
    }
}

/// Appends the items of `items` as source text, one space between
/// neighbours, to `out`.
pub fn push_items(out: &mut String, items: &Vec<Value>)
    ensures
        final(out)@ == old(out)@ + show_items(forms(items@), items@.len()),
    decreases items, 1nat,
{
    let mut i: usize = 0;
    assert(out@ + show_items(forms(items@), 0) =~= out@);
    while i < items.len()
        invariant
            i <= items.len(),
            out@ == old(out)@ + show_items(forms(items@), i as nat),
        decreases items.len() - i,
    {
        let ghost before = out@;
        if i > 0 {
            out.push(' ');
        }
        let ghost mid = out@;
        push_value(out, &items[i]);
        assert(out@ =~= old(out)@ + show_items(forms(items@), (i + 1) as nat)) by {
            assert(forms(items@)[i as int] == items@[i as int]@);
            if i > 0 {
                assert(out@ =~= before + seq![' '] + show(items@[i as int]@));
            } else {
                assert(before =~= old(out)@);
            }
        }
        i += 1;
    }
}

fn push_entries(out: &mut String, pairs: &Vec<(String, Value)>)
    ensures
        final(out)@ == old(out)@ + show_entries(entries(pairs@), pairs@.len()),
    decreases pairs, 1nat,
{
    let mut i: usize = 0;
    assert(out@ + show_entries(entries(pairs@), 0) =~= out@);
    while i < pairs.len()
        invariant
            i <= pairs.len(),
            out@ == old(out)@ + show_entries(entries(pairs@), i as nat),
        decreases pairs.len() - i,
    {
        let ghost before = out@;
        if i > 0 {
            out.push(' ');
        }
        push_key(out, pairs[i].0.as_str());
        out.push(' ');
        push_value(out, &pairs[i].1);
        assert(out@ =~= old(out)@ + show_entries(entries(pairs@), (i + 1) as nat)) by {
            assert(entries(pairs@)[i as int] == (pairs@[i as int].0@, pairs@[i as int].1@));
            if i > 0 {
                assert(out@ =~= before + seq![' '] + show_key(pairs@[i as int].0@) + seq![' ']
                    + show(pairs@[i as int].1@));
            } else {
                assert(before =~= old(out)@);
                assert(out@ =~= before + show_key(pairs@[i as int].0@) + seq![' '] + show(
                    pairs@[i as int].1@,
                ));
            }
        }
        i += 1;
    }
}

/// Appends `v` as source text to `out`.
pub fn push_value(out: &mut String, v: &Value)
    ensures
        final(out)@ == old(out)@ + show(v@),
    decreases v, 0nat,
{
    proof {
        lemma_views(*v);
    }
    match v {
        Value::Symbol(s) => out.append(s.as_str()),
        Value::Number(n) => {
            match whole_to_print(n.bits) {
                Some(m) => {
                    if bits_negative(n.bits) {
                        out.push('-');
                    }
                    out.append(decimal_of(m).as_str());
                    assert(out@ =~= old(out)@ + rendering(n@));
                },
                None => out.append(n.text.as_str()),
            }
        },
        Value::Bool(b) => {
            if *b {
                out.append("true");
            } else {
                out.append("false");
            }
        },
        Value::Nil => out.append("nil"),
        Value::Str(s) => push_quoted(out, s.as_str()),
        Value::List(items) => {
            out.push('(');
            push_items(out, items);
            out.push(')');
            assert(out@ =~= old(out)@ + show(v@));
        },
        Value::Vector(items) => {
            out.push('[');
            push_items(out, items);
            out.push(']');
            assert(out@ =~= old(out)@ + show(v@));
        },
        Value::Dict(pairs) => {
            out.push('{');
            push_entries(out, pairs);
            out.push('}');
            assert(out@ =~= old(out)@ + show(v@));
        },
        Value::Keyword(s) => {
            out.push(':');
            out.append(s.as_str());
            assert(out@ =~= old(out)@ + show(v@));
        },
        Value::Function(f) => push_function(out, f),
        Value::IOResource(r) => push_resource(out, r),
        Value::Uninitialized => out.append("#<uninitialized>"),
    }
}

impl Value {
    /// The value as source text. Atoms, lists, vectors and maps are written
    /// so that the reader gives them back.
    pub fn to_text(&self) -> (r: String)
        ensures
            r@ == show(self@),
    {
        let mut out = String::new();
        push_value(&mut out, self);
        assert(out@ =~= show(self@));
        out
    }
}

} // verus!
