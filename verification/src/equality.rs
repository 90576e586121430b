//! Structural equality of values.
//!
//! Numbers are equal as doubles are, lists and vectors item by item, maps
//! as mappings whatever the order of their entries, functions part by part
//! with their environments. An I/O resource equals nothing, itself
//! included.
use vstd::prelude::*;
use crate::env::{find_entry, find_pair, find_text, lookup, names};
use crate::number::{bits_equal, same_number};
use crate::text::{first_index, has_item, lemma_first_index, Text};
use crate::value::{
    entries, forms, lemma_function, lemma_scope_data, lemma_views, text_pairs, texts, Closure, Env,
    Form, Function, IOResource, Number, Scope, Value,
};

verus! {

/// Whether two lists of entries are the same mapping: every key that one
/// binds the other binds too, to an equal value. Where a key occurs twice,
/// its first entry counts.
pub open spec fn same_entries(x: Seq<(Text, Form)>, y: Seq<(Text, Form)>) -> bool
    decreases x,
{
    &&& forall|i: int|
        0 <= i < x.len() && first_index(names(x), #[trigger] x[i].0) == i ==> lookup(y, x[i].0)
            is Some && same(x[i].1, lookup(y, x[i].0)->0)
    &&& forall|j: int| 0 <= j < y.len() ==> lookup(x, #[trigger] y[j].0) is Some
}

/// Whether two lists of strings hold the same strings.
pub open spec fn same_set(x: Seq<Text>, y: Seq<Text>) -> bool {
    &&& forall|i: int| 0 <= i < x.len() ==> has_item(y, #[trigger] x[i])
    &&& forall|j: int| 0 <= j < y.len() ==> has_item(x, #[trigger] y[j])
}

/// Whether two lists of string pairs are the same mapping.
pub open spec fn same_table(x: Seq<(Text, Text)>, y: Seq<(Text, Text)>) -> bool {
    &&& forall|i: int| 0 <= i < x.len() ==> lookup(y, #[trigger] x[i].0) == lookup(x, x[i].0)
    &&& forall|j: int| 0 <= j < y.len() ==> lookup(x, #[trigger] y[j].0) is Some
}

/// Whether two environments are equal: frame by frame up to the root.
pub open spec fn same_scope(a: Scope, b: Scope) -> bool
    decreases a,
{
    &&& match (a.parent, b.parent) {
        (None, None) => true,
        (Some(p), Some(q)) => same_scope(*p, *q),
        _ => false,
    }
    &&& same_entries(a.data, b.data)
    &&& a.current_namespace == b.current_namespace
    &&& same_set(a.loaded_namespaces, b.loaded_namespaces)
    &&& same_table(a.namespace_aliases, b.namespace_aliases)
}

/// Whether two functions are equal: natives of the same name, or two
/// functions, or two macros, with the same parameters, equal bodies and
/// equal environments.
pub open spec fn same_closure(f: Closure, g: Closure) -> bool
    decreases f,
{
    match (f, g) {
        (Closure::Native(n), Closure::Native(m)) => n == m,
        (
            Closure::UserDefined { params: p, body: b, env: e },
            Closure::UserDefined { params: q, body: c, env: d },
        ) => p == q && same(*b, *c) && same_scope(e, d),
        (
            Closure::Macro { params: p, body: b, env: e },
            Closure::Macro { params: q, body: c, env: d },
        ) => p == q && same(*b, *c) && same_scope(e, d),
        _ => false,
    }
}

/// Whether two values are equal.
pub open spec fn same(a: Form, b: Form) -> bool
    decreases a,
{
    match (a, b) {
        (Form::Symbol(x), Form::Symbol(y)) => x == y,
        (Form::Number(x), Form::Number(y)) => same_number(x.bits, y.bits),
        (Form::Bool(x), Form::Bool(y)) => x == y,
        (Form::Nil, Form::Nil) => true,
        (Form::Str(x), Form::Str(y)) => x == y,
        (Form::List(x), Form::List(y)) => x.len() == y.len() && forall|i: int|
            0 <= i < x.len() ==> same(#[trigger] x[i], y[i]),
        (Form::Vector(x), Form::Vector(y)) => x.len() == y.len() && forall|i: int|
            0 <= i < x.len() ==> same(#[trigger] x[i], y[i]),
        (Form::Dict(x), Form::Dict(y)) => same_entries(x, y),
        (Form::Keyword(x), Form::Keyword(y)) => x == y,
        (Form::Function(f), Form::Function(g)) => same_closure(f, g),
        (Form::Uninitialized, Form::Uninitialized) => true,
        _ => false,
    }
}

/// Whether two lists hold the same strings at the same positions.
pub fn texts_eq(x: &Vec<String>, y: &Vec<String>) -> (r: bool)
    ensures
        r == (texts(x@) == texts(y@)),
{
    if x.len() != y.len() {
        assert(texts(x@).len() != texts(y@).len());
        return false;
    }
    let mut i: usize = 0;
    while i < x.len()
        invariant
            i <= x.len(),
            x@.len() == y@.len(),
            forall|j: int| 0 <= j < i ==> x@[j]@ == y@[j]@,
        decreases x.len() - i,
    {
        if !x[i].as_str().eq(y[i].as_str()) {
            assert(texts(x@)[i as int] != texts(y@)[i as int]);
            return false;
        }
        i += 1;
    }
    assert(texts(x@) =~= texts(y@));
    true
}

/// Whether every string of `x` is among `y`.
fn subset(x: &Vec<String>, y: &Vec<String>) -> (r: bool)
    ensures
        r == (forall|i: int| 0 <= i < x@.len() ==> has_item(texts(y@), #[trigger] texts(x@)[i])),
{
    let mut i: usize = 0;
    while i < x.len()
        invariant
            i <= x.len(),
            forall|j: int| 0 <= j < i ==> has_item(texts(y@), #[trigger] texts(x@)[j]),
        decreases x.len() - i,
    {
        if find_text(y, x[i].as_str()) >= y.len() {
            assert(!has_item(texts(y@), texts(x@)[i as int]));
            return false;
        }
        i += 1;
    }
    true
}

/// Whether two lists of strings hold the same strings.
pub fn set_eq(x: &Vec<String>, y: &Vec<String>) -> (r: bool)
    ensures
        r == same_set(texts(x@), texts(y@)),
{
    subset(x, y) && subset(y, x)
}

/// Whether two lists of string pairs are the same mapping.
pub fn table_eq(x: &Vec<(String, String)>, y: &Vec<(String, String)>) -> (r: bool)
    ensures
        r == same_table(text_pairs(x@), text_pairs(y@)),
{
    let ghost xs = text_pairs(x@);
    let ghost ys = text_pairs(y@);
    let mut i: usize = 0;
    while i < x.len()
        invariant
            i <= x.len(),
            xs == text_pairs(x@),
            ys == text_pairs(y@),
            forall|k: int| 0 <= k < i ==> lookup(ys, #[trigger] xs[k].0) == lookup(xs, xs[k].0),
        decreases x.len() - i,
    {
        let own = find_pair(x, x[i].0.as_str());
        let other = find_pair(y, x[i].0.as_str());
        proof {
            lemma_first_index(names(xs), xs[i as int].0);
            assert(names(xs)[i as int] == xs[i as int].0);
        }
        if other >= y.len() || !x[own].1.as_str().eq(y[other].1.as_str()) {
            assert(lookup(ys, xs[i as int].0) != lookup(xs, xs[i as int].0));
            return false;
        }
        i += 1;
    }
    let mut j: usize = 0;
    while j < y.len()
        invariant
            j <= y.len(),
            xs == text_pairs(x@),
            ys == text_pairs(y@),
            forall|k: int| 0 <= k < j ==> lookup(xs, #[trigger] ys[k].0) is Some,
        decreases y.len() - j,
    {
        if find_pair(x, y[j].0.as_str()) >= x.len() {
            assert(lookup(xs, ys[j as int].0) is None);
            return false;
        }
        j += 1;
    }
    true
}

/// Whether two lists hold equal values at the same positions.
pub fn items_eq(x: &Vec<Value>, y: &Vec<Value>) -> (r: bool)
    ensures
        r == (x@.len() == y@.len() && forall|i: int|
            0 <= i < x@.len() ==> same(#[trigger] forms(x@)[i], forms(y@)[i])),
    decreases x,
{
    if x.len() != y.len() {
        return false;
    }
    let mut i: usize = 0;
    while i < x.len()
        invariant
            i <= x.len(),
            x@.len() == y@.len(),
            forall|j: int| 0 <= j < i ==> same(#[trigger] forms(x@)[j], forms(y@)[j]),
        decreases x.len() - i,
    {
        if !value_eq(&x[i], &y[i]) {
            assert(!same(forms(x@)[i as int], forms(y@)[i as int]));
            return false;
        }
        i += 1;
    }
    true
}

/// Whether two lists of entries are the same mapping.
pub fn entries_eq(x: &Vec<(String, Value)>, y: &Vec<(String, Value)>) -> (r: bool)
    ensures
        r == same_entries(entries(x@), entries(y@)),
    decreases x,
{
    let ghost xs = entries(x@);
    let ghost ys = entries(y@);
    let mut i: usize = 0;
    while i < x.len()
        invariant
            i <= x.len(),
            xs == entries(x@),
            ys == entries(y@),
            forall|k: int|
                0 <= k < i && first_index(names(xs), #[trigger] xs[k].0) == k ==> lookup(
                    ys,
                    xs[k].0,
                ) is Some && same(xs[k].1, lookup(ys, xs[k].0)->0),
        decreases x.len() - i,
    {
        let own = find_entry(x, x[i].0.as_str());
        if own == i {
            let other = find_entry(y, x[i].0.as_str());
            if other >= y.len() {
                assert(lookup(ys, xs[i as int].0) is None);
                return false;
            }
            if !value_eq(&x[i].1, &y[other].1) {
                assert(!same(xs[i as int].1, lookup(ys, xs[i as int].0)->0));
                return false;
            }
        }
        i += 1;
    }
    let mut j: usize = 0;
    while j < y.len()
        invariant
            j <= y.len(),
            xs == entries(x@),
            ys == entries(y@),
            forall|k: int| 0 <= k < j ==> lookup(xs, #[trigger] ys[k].0) is Some,
        decreases y.len() - j,
    {
        if find_entry(x, y[j].0.as_str()) >= x.len() {
            assert(lookup(xs, ys[j as int].0) is None);
            return false;
        }
        j += 1;
    }
    true
}

/// Whether two environments are equal.
pub fn env_eq(a: &Env, b: &Env) -> (r: bool)
    ensures
        r == same_scope(a@, b@),
    decreases a,
{
    proof {
        lemma_scope_data(*a);
        lemma_scope_data(*b);
    }
    let parents = match (&a.parent, &b.parent) {
        (None, None) => true,
        (Some(p), Some(q)) => env_eq(p, q),
        _ => false,
    };
    parents && entries_eq(&a.data, &b.data) && a.current_namespace.as_str().eq(
        b.current_namespace.as_str(),
    ) && set_eq(&a.loaded_namespaces, &b.loaded_namespaces) && table_eq(
        &a.namespace_aliases,
        &b.namespace_aliases,
    )
}

/// Whether two functions are equal.
pub fn function_eq(f: &Function, g: &Function) -> (r: bool)
    ensures
        r == same_closure(f@, g@),
    decreases f,
{
    proof {
        lemma_function(*f);
        lemma_function(*g);
    }
    match (f, g) {
        (Function::Native(n), Function::Native(m)) => n.as_str().eq(m.as_str()),
        (
            Function::UserDefined { params: p, body: b, env: e },
            Function::UserDefined { params: q, body: c, env: d },
        ) => texts_eq(p, q) && value_eq(b, c) && env_eq(e, d),
        (
            Function::Macro { params: p, body: b, env: e },
            Function::Macro { params: q, body: c, env: d },
        ) => texts_eq(p, q) && value_eq(b, c) && env_eq(e, d),
        _ => false,
    }
}

/// Whether two values are equal.
pub fn value_eq(a: &Value, b: &Value) -> (r: bool)
    ensures
        r == same(a@, b@),
    decreases a,
{
    proof {
        lemma_views(*a);
        lemma_views(*b);
    }
    match (a, b) {
        (Value::Symbol(x), Value::Symbol(y)) => x.as_str().eq(y.as_str()),
        (Value::Number(x), Value::Number(y)) => bits_equal(x.bits, y.bits),
        (Value::Bool(x), Value::Bool(y)) => *x == *y,
        (Value::Nil, Value::Nil) => true,
        (Value::Str(x), Value::Str(y)) => x.as_str().eq(y.as_str()),
        (Value::List(x), Value::List(y)) => items_eq(x, y),
        (Value::Vector(x), Value::Vector(y)) => items_eq(x, y),
        (Value::Dict(x), Value::Dict(y)) => entries_eq(x, y),
        (Value::Keyword(x), Value::Keyword(y)) => x.as_str().eq(y.as_str()),
        (Value::Function(f), Value::Function(g)) => function_eq(f, g),
        (Value::Uninitialized, Value::Uninitialized) => true,
        _ => false,
    }
}

impl PartialEq for Value {
    fn eq(&self, other: &Value) -> (r: bool) {
        value_eq(self, other)
    }
}

impl vstd::std_specs::cmp::PartialEqSpecImpl for Value {
    open spec fn obeys_eq_spec() -> bool {
        true
    }

    open spec fn eq_spec(&self, other: &Value) -> bool {
        same(self@, other@)
    }
}

impl PartialEq for Function {
    fn eq(&self, other: &Function) -> (r: bool) {
        function_eq(self, other)
    }
}

impl vstd::std_specs::cmp::PartialEqSpecImpl for Function {
    open spec fn obeys_eq_spec() -> bool {
        true
    }

    open spec fn eq_spec(&self, other: &Function) -> bool {
        same_closure(self@, other@)
    }
}

impl PartialEq for Env {
    fn eq(&self, other: &Env) -> (r: bool) {
        env_eq(self, other)
    }
}

impl vstd::std_specs::cmp::PartialEqSpecImpl for Env {
    open spec fn obeys_eq_spec() -> bool {
        true
    }

    open spec fn eq_spec(&self, other: &Env) -> bool {
        same_scope(self@, other@)
    }
}

impl PartialEq for IOResource {
    /// An I/O resource equals nothing.
    fn eq(&self, other: &IOResource) -> (r: bool) {
        false
    }
}

impl vstd::std_specs::cmp::PartialEqSpecImpl for IOResource {
    open spec fn obeys_eq_spec() -> bool {
        true
    }

    open spec fn eq_spec(&self, other: &IOResource) -> bool {
        false
    }
}

impl PartialEq for Number {
    /// Numbers are equal as doubles are, whatever their renderings.
    fn eq(&self, other: &Number) -> (r: bool) {
        bits_equal(self.bits, other.bits)
    }
}

impl vstd::std_specs::cmp::PartialEqSpecImpl for Number {
    open spec fn obeys_eq_spec() -> bool {
        true
    }

    open spec fn eq_spec(&self, other: &Number) -> bool {
        same_number(self.bits, other.bits)
    }
}

} // verus!
