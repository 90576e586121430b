//! The invariant of the data: a map is a mapping.
//!
//! A map, a frame of bindings and a table of aliases are held as entries
//! in insertion order. They are well formed where no key occurs twice, and
//! so all through the values they hold. What the reader gives is well
//! formed, the root environment is, and a step of the machine keeps a
//! well-formed state well formed.
use vstd::prelude::*;
use crate::env::{assign, distinct, find_entry, find_pair, find_text, lookup, names};
use crate::text::{first_index, lemma_first_index, Text};
use crate::defaults::{conditional, default_scope, early_natives, late_natives, with_natives};
use crate::parser::{
    collect, key_of, parse_all, parse_entries, parse_form, parse_items, read_all_text, read_text,
};
use crate::reader::{tokens_of, Lexeme};
use crate::text::lemma_first_index_is;
use crate::value::{
    entries, forms, lemma_function, lemma_scope_data, lemma_views, text_pairs, texts, Closure,
    Env, Form, Function, Numeral, Scope, Value,
};

verus! {

/// Whether every map in `f`, and every environment that a function in `f`
/// holds, has no key twice.
pub open spec fn well_formed(f: Form) -> bool
    decreases f,
{
    match f {
        Form::List(items) => forall|i: int|
            0 <= i < items.len() ==> well_formed(#[trigger] items[i]),
        Form::Vector(items) => forall|i: int|
            0 <= i < items.len() ==> well_formed(#[trigger] items[i]),
        Form::Dict(pairs) => distinct(names(pairs)) && forall|i: int|
            0 <= i < pairs.len() ==> well_formed((#[trigger] pairs[i]).1),
        Form::Function(c) => match c {
            Closure::Native(_) => true,
            Closure::UserDefined { body, env, .. } => well_formed(*body) && well_scoped(env),
            Closure::Macro { body, env, .. } => well_formed(*body) && well_scoped(env),
        },
        _ => true,
    }
}

/// Whether an environment, parents included, binds no name twice in a
/// frame, records no namespace twice, has no alias twice, and holds
/// well-formed values only.
pub open spec fn well_scoped(s: Scope) -> bool
    decreases s,
{
    &&& match s.parent {
        Some(p) => well_scoped(*p),
        None => true,
    }
    &&& distinct(names(s.data))
    &&& forall|i: int| 0 <= i < s.data.len() ==> well_formed((#[trigger] s.data[i]).1)
    &&& distinct(s.loaded_namespaces)
    &&& distinct(names(s.namespace_aliases))
}

/// Whether all of `items` are well formed.
pub open spec fn all_well_formed(items: Seq<Form>) -> bool {
    forall|i: int| 0 <= i < items.len() ==> well_formed(#[trigger] items[i])
}

/// Whether the values of all of `pairs` are well formed.
pub open spec fn all_values_well_formed(pairs: Seq<(Text, Form)>) -> bool {
    forall|i: int| 0 <= i < pairs.len() ==> well_formed((#[trigger] pairs[i]).1)
}

/// Binding a key keeps the keys distinct.
pub proof fn lemma_assign_keeps_distinct<V>(data: Seq<(Text, V)>, key: Text, v: V)
    requires
        distinct(names(data)),
    ensures
        distinct(names(assign(data, key, v))),
{
    let i = first_index(names(data), key);
    lemma_first_index(names(data), key);
    let after = assign(data, key, v);
    assert forall|a: int, b: int| 0 <= a < b < after.len() implies names(after)[a] != names(
        after,
    )[b] by {
        if i < data.len() {
            assert(names(data)[i] == key);
            if a != i && b != i {
                assert(names(after)[a] == names(data)[a]);
                assert(names(after)[b] == names(data)[b]);
            } else if a == i {
                assert(names(after)[b] == names(data)[b]);
                assert(names(data)[i] != names(data)[b]);
            } else {
                assert(names(after)[a] == names(data)[a]);
                assert(names(data)[a] != names(data)[i]);
            }
        } else {
            if b < data.len() {
                assert(names(after)[a] == names(data)[a]);
                assert(names(after)[b] == names(data)[b]);
            } else {
                assert(names(after)[a] == names(data)[a]);
                assert(names(data)[a] != key);
            }
        }
    }
}

/// Binding a key to a well-formed value keeps the values well formed.
pub proof fn lemma_assign_keeps_values(data: Seq<(Text, Form)>, key: Text, v: Form)
    requires
        all_values_well_formed(data),
        well_formed(v),
    ensures
        all_values_well_formed(assign(data, key, v)),
{
    let i = first_index(names(data), key);
    lemma_first_index(names(data), key);
    let after = assign(data, key, v);
    assert forall|j: int| 0 <= j < after.len() implies well_formed((#[trigger] after[j]).1) by {
        if i < data.len() {
            if j != i {
                assert(after[j] == data[j]);
            }
        } else {
            if j < data.len() {
                assert(after[j] == data[j]);
            }
        }
    }
}

/// What a well-formed map binds is well formed.
pub proof fn lemma_lookup_well_formed(data: Seq<(Text, Form)>, key: Text)
    requires
        all_values_well_formed(data),
    ensures
        lookup(data, key) matches Some(v) ==> well_formed(v),
{
    lemma_first_index(names(data), key);
}

/// A fresh root environment is well formed.
pub proof fn law_root_well_scoped()
    ensures
        well_scoped(Scope::root()),
{
}

/// A fresh frame over a well-formed environment is well formed.
pub proof fn law_child_well_scoped(s: Scope)
    requires
        well_scoped(s),
    ensures
        well_scoped(s.child()),
{
}

/// Binding a name to a well-formed value keeps an environment well formed.
pub proof fn law_set_well_scoped(s: Scope, name: Text, v: Form)
    requires
        well_scoped(s),
        well_formed(v),
    ensures
        well_scoped(s.set(name, v)),
        well_scoped(s.set_namespaced(name, v)),
{
    lemma_assign_keeps_distinct(s.data, name, v);
    lemma_assign_keeps_values(s.data, name, v);
    lemma_assign_keeps_distinct(s.data, s.qualify(name), v);
    lemma_assign_keeps_values(s.data, s.qualify(name), v);
}

/// What a well-formed environment binds is well formed.
pub proof fn law_get_well_formed(s: Scope, name: Text)
    requires
        well_scoped(s),
    ensures
        s.get(name) matches Some(v) ==> well_formed(v),
    decreases s,
{
    lemma_lookup_well_formed(s.data, name);
    if lookup(s.data, name) is None {
        match s.parent {
            Some(p) => law_get_well_formed(*p, name),
            None => {},
        }
    }
}

/// Whatever way a name is resolved, what a well-formed environment gives
/// for it is well formed.
pub proof fn law_resolve_well_formed(s: Scope, name: Text)
    requires
        well_scoped(s),
    ensures
        s.get_with_namespaces(name) matches Some(v) ==> well_formed(v),
        s.get_with_aliases(name) matches Some(v) ==> well_formed(v),
        s.resolve(name) matches Some(v) ==> well_formed(v),
{
    assert forall|n: Text| (#[trigger] s.get(n)) matches Some(v) ==> well_formed(v) by {
        law_get_well_formed(s, n);
    }
}

/// Rebinding a name to a well-formed value keeps an environment well
/// formed.
pub proof fn law_update_well_scoped(s: Scope, name: Text, v: Form)
    requires
        well_scoped(s),
        well_formed(v),
    ensures
        well_scoped(s.update(name, v)),
    decreases s,
{
    if lookup(s.data, name) is Some {
        law_set_well_scoped(s, name, v);
    } else {
        match s.parent {
            Some(p) => law_update_well_scoped(*p, name, v),
            None => {},
        }
    }
}

/// Changing the namespace, recording a loaded namespace and adding an
/// alias keep an environment well formed.
pub proof fn law_namespaces_well_scoped(s: Scope, name: Text, other: Text)
    requires
        well_scoped(s),
    ensures
        well_scoped(s.set_namespace(name)),
        well_scoped(s.add_loaded_namespace(name)),
        well_scoped(s.add_alias(name, other)),
{
    lemma_assign_keeps_distinct(s.namespace_aliases, name, other);
    if !s.is_namespace_loaded(name) {
        let before = s.loaded_namespaces;
        let after = before.push(name);
        lemma_first_index(before, name);
        assert forall|a: int, b: int| 0 <= a < b < after.len() implies after[a] != after[b] by {
            if b < before.len() {
                assert(after[a] == before[a] && after[b] == before[b]);
            } else {
                assert(after[a] == before[a]);
            }
        }
    }
}

/// The map that the reader builds of pairs with well-formed values is well
/// formed.
pub proof fn lemma_collect_well_formed(pairs: Seq<(Text, Form)>)
    requires
        all_values_well_formed(pairs),
    ensures
        distinct(names(collect(pairs))),
        all_values_well_formed(collect(pairs)),
    decreases pairs.len(),
{
    if pairs.len() > 0 {
        let before = pairs.drop_last();
        assert forall|j: int| 0 <= j < before.len() implies well_formed(
            (#[trigger] before[j]).1,
        ) by {
            assert(before[j] == pairs[j]);
        }
        lemma_collect_well_formed(before);
        lemma_assign_keeps_distinct(collect(before), pairs.last().0, pairs.last().1);
        lemma_assign_keeps_values(collect(before), pairs.last().0, pairs.last().1);
    }
}

/// What the parser makes of tokens is well formed.
pub proof fn lemma_parsed_well_formed(t: Seq<Lexeme>, pos: int, table: Seq<(Text, Numeral)>)
    ensures
        parse_form(t, pos, table) matches Ok((f, _)) ==> well_formed(f),
    decreases t.len() - pos, 0nat,
{
    if 0 <= pos < t.len() {
        match t[pos] {
            Lexeme::LeftParen => lemma_parsed_items_well_formed(
                t,
                pos + 1,
                Lexeme::RightParen,
                table,
            ),
            Lexeme::LeftBracket => lemma_parsed_items_well_formed(
                t,
                pos + 1,
                Lexeme::RightBracket,
                table,
            ),
            Lexeme::LeftBrace => {
                lemma_parsed_entries_well_formed(t, pos + 1, table);
                match parse_entries(t, pos + 1, table) {
                    Ok((pairs, _)) => lemma_collect_well_formed(pairs),
                    Err(_) => {},
                }
            },
            Lexeme::Quote | Lexeme::Backquote | Lexeme::Tilde => {
                lemma_parsed_well_formed(t, pos + 1, table);
                match parse_form(t, pos + 1, table) {
                    Ok((f, _)) => {
                        let head = Form::Symbol(crate::parser::shorthand(t[pos])->0);
                        let items = seq![head, f];
                        assert forall|j: int| 0 <= j < items.len() implies well_formed(
                            #[trigger] items[j],
                        ) by {
                            if j == 0 {
                                assert(items[0] == head);
                            } else {
                                assert(items[1] == f);
                            }
                        }
                        assert(well_formed(Form::List(items)));
                    },
                    Err(_) => {},
                }
            },
            _ => {},
        }
    }
}

/// The items that the parser makes of tokens are well formed.
pub proof fn lemma_parsed_items_well_formed(
    t: Seq<Lexeme>,
    pos: int,
    close: Lexeme,
    table: Seq<(Text, Numeral)>,
)
    ensures
        parse_items(t, pos, close, table) matches Ok((items, _)) ==> all_well_formed(items),
    decreases t.len() - pos, 1nat,
{
    if 0 <= pos < t.len() && t[pos] != close {
        lemma_parsed_well_formed(t, pos, table);
        match parse_form(t, pos, table) {
            Ok((f, next)) => {
                if next > pos && next <= t.len() {
                    lemma_parsed_items_well_formed(t, next, close, table);
                    match parse_items(t, next, close, table) {
                        Ok((rest, _)) => {
                            let items = seq![f] + rest;
                            assert forall|j: int| 0 <= j < items.len() implies well_formed(
                                #[trigger] items[j],
                            ) by {
                                if j > 0 {
                                    assert(items[j] == rest[j - 1]);
                                }
                            }
                        },
                        Err(_) => {},
                    }
                }
            },
            Err(_) => {},
        }
    }
}

/// The values that the parser makes of the tokens of a map are well
/// formed.
pub proof fn lemma_parsed_entries_well_formed(
    t: Seq<Lexeme>,
    pos: int,
    table: Seq<(Text, Numeral)>,
)
    ensures
        parse_entries(t, pos, table) matches Ok((pairs, _)) ==> all_values_well_formed(pairs),
    decreases t.len() - pos, 1nat,
{
    if 0 <= pos < t.len() && t[pos] != Lexeme::RightBrace {
        match parse_form(t, pos, table) {
            Ok((k, next)) => {
                if key_of(k) is Some && pos < next < t.len() {
                    lemma_parsed_well_formed(t, next, table);
                    match parse_form(t, next, table) {
                        Ok((v, after)) => {
                            if next < after <= t.len() {
                                lemma_parsed_entries_well_formed(t, after, table);
                                match parse_entries(t, after, table) {
                                    Ok((rest, _)) => {
                                        let pairs = seq![(key_of(k)->0, v)] + rest;
                                        assert forall|j: int|
                                            0 <= j < pairs.len() implies well_formed(
                                            (#[trigger] pairs[j]).1,
                                        ) by {
                                            if j > 0 {
                                                assert(pairs[j] == rest[j - 1]);
                                            }
                                        }
                                    },
                                    Err(_) => {},
                                }
                            }
                        },
                        Err(_) => {},
                    }
                }
            },
            Err(_) => {},
        }
    }
}

proof fn lemma_parsed_all_well_formed(t: Seq<Lexeme>, pos: int, table: Seq<(Text, Numeral)>)
    ensures
        parse_all(t, pos, table) matches Ok(items) ==> all_well_formed(items),
    decreases t.len() - pos,
{
    if 0 <= pos < t.len() {
        lemma_parsed_well_formed(t, pos, table);
        match parse_form(t, pos, table) {
            Ok((f, next)) => {
                if next > pos && next <= t.len() {
                    lemma_parsed_all_well_formed(t, next, table);
                    match parse_all(t, next, table) {
                        Ok(rest) => {
                            let items = seq![f] + rest;
                            assert forall|j: int| 0 <= j < items.len() implies well_formed(
                                #[trigger] items[j],
                            ) by {
                                if j > 0 {
                                    assert(items[j] == rest[j - 1]);
                                }
                            }
                        },
                        Err(_) => {},
                    }
                }
            },
            Err(_) => {},
        }
    }
}

/// Whatever the reader gives is well formed.
pub proof fn law_read_well_formed(s: Text, table: Seq<(Text, Numeral)>)
    ensures
        read_text(s, table) matches Ok(f) ==> well_formed(f),
        read_all_text(s, table) matches Ok(items) ==> all_well_formed(items),
{
    match tokens_of(s) {
        Ok(t) => {
            lemma_parsed_well_formed(t, 0, table);
            lemma_parsed_all_well_formed(t, 0, table);
        },
        Err(_) => {},
    }
}

proof fn lemma_with_natives(scope: Scope, names: Seq<Text>, n: nat)
    requires
        well_scoped(scope),
    ensures
        well_scoped(with_natives(scope, names, n)),
    decreases n,
{
    if n > 0 && n <= names.len() {
        lemma_with_natives(scope, names, (n - 1) as nat);
        law_set_well_scoped(
            with_natives(scope, names, (n - 1) as nat),
            names[n - 1],
            Form::Function(Closure::Native(names[n - 1])),
        );
    }
}

proof fn lemma_conditional(negated: bool, env: Scope)
    requires
        well_scoped(env),
    ensures
        well_formed(conditional(negated, env)),
{
    let c = conditional(negated, env)->Function_0;
    let body = *c->Macro_body;
    let items = body->List_0;
    assert(items.len() == 4);
    assert forall|j: int| 0 <= j < items.len() implies well_formed(#[trigger] items[j]) by {
        assert(items[j] is Symbol || items[j] is Nil);
    }
    assert(well_formed(body));
    assert(well_formed(Form::Function(c)));
}

/// The root environment is well formed.
pub proof fn law_default_env_well_scoped()
    ensures
        well_scoped(default_scope()),
{
    law_root_well_scoped();
    lemma_with_natives(Scope::root(), early_natives(), early_natives().len());
    let base = with_natives(Scope::root(), early_natives(), early_natives().len());
    lemma_conditional(false, base);
    law_set_well_scoped(base, "when"@, conditional(false, base));
    let first = base.set("when"@, conditional(false, base));
    lemma_conditional(true, first);
    law_set_well_scoped(first, "unless"@, conditional(true, first));
    let second = first.set("unless"@, conditional(true, first));
    lemma_with_natives(second, late_natives(), late_natives().len());
}

/// Where the first entry with each key is the entry itself, no key occurs
/// twice; and where no key occurs twice, it is.
proof fn lemma_distinct_by_first_index(keys: Seq<Text>)
    ensures
        distinct(keys) <==> forall|i: int|
            0 <= i < keys.len() ==> first_index(keys, #[trigger] keys[i]) == i,
{
    if distinct(keys) {
        assert forall|i: int| 0 <= i < keys.len() implies first_index(keys, #[trigger] keys[i])
            == i by {
            lemma_first_index_is(keys, keys[i], i);
        }
    }
    if forall|i: int| 0 <= i < keys.len() ==> first_index(keys, #[trigger] keys[i]) == i {
        assert forall|i: int, j: int| 0 <= i < j < keys.len() implies keys[i] != keys[j] by {
            if keys[i] == keys[j] {
                lemma_first_index(keys, keys[j]);
                assert(first_index(keys, keys[j]) == j);
            }
        }
    }
}

/// Whether no entry has the key of an earlier one.
fn entries_distinct(data: &Vec<(String, Value)>) -> (b: bool)
    ensures
        b == distinct(names(entries(data@))),
{
    let ghost keys = names(entries(data@));
    proof {
        lemma_distinct_by_first_index(keys);
    }
    let mut i: usize = 0;
    while i < data.len()
        invariant
            i <= data.len(),
            keys == names(entries(data@)),
            keys.len() == data@.len(),
            distinct(keys) <==> forall|j: int|
                0 <= j < keys.len() ==> first_index(keys, #[trigger] keys[j]) == j,
            forall|j: int| 0 <= j < i ==> first_index(keys, #[trigger] keys[j]) == j,
        decreases data.len() - i,
    {
        assert(keys[i as int] == data@[i as int].0@);
        if find_entry(data, data[i].0.as_str()) != i {
            return false;
        }
        i += 1;
    }
    true
}

/// Whether no pair has the key of an earlier one.
fn pairs_distinct(data: &Vec<(String, String)>) -> (b: bool)
    ensures
        b == distinct(names(text_pairs(data@))),
{
    let ghost keys = names(text_pairs(data@));
    proof {
        lemma_distinct_by_first_index(keys);
    }
    let mut i: usize = 0;
    while i < data.len()
        invariant
            i <= data.len(),
            keys == names(text_pairs(data@)),
            keys.len() == data@.len(),
            distinct(keys) <==> forall|j: int|
                0 <= j < keys.len() ==> first_index(keys, #[trigger] keys[j]) == j,
            forall|j: int| 0 <= j < i ==> first_index(keys, #[trigger] keys[j]) == j,
        decreases data.len() - i,
    {
        assert(keys[i as int] == data@[i as int].0@);
        if find_pair(data, data[i].0.as_str()) != i {
            return false;
        }
        i += 1;
    }
    true
}

/// Whether no string occurs twice.
fn texts_distinct(data: &Vec<String>) -> (b: bool)
    ensures
        b == distinct(texts(data@)),
{
    let ghost keys = texts(data@);
    proof {
        lemma_distinct_by_first_index(keys);
    }
    let mut i: usize = 0;
    while i < data.len()
        invariant
            i <= data.len(),
            keys == texts(data@),
            keys.len() == data@.len(),
            distinct(keys) <==> forall|j: int|
                0 <= j < keys.len() ==> first_index(keys, #[trigger] keys[j]) == j,
            forall|j: int| 0 <= j < i ==> first_index(keys, #[trigger] keys[j]) == j,
        decreases data.len() - i,
    {
        assert(keys[i as int] == data@[i as int]@);
        if find_text(data, data[i].as_str()) != i {
            return false;
        }
        i += 1;
    }
    true
}

fn items_well_formed(items: &Vec<Value>) -> (b: bool)
    ensures
        b == all_well_formed(forms(items@)),
    decreases items,
{
    let mut i: usize = 0;
    while i < items.len()
        invariant
            i <= items.len(),
            forall|j: int| 0 <= j < i ==> well_formed(#[trigger] forms(items@)[j]),
        decreases items.len() - i,
    {
        assert(forms(items@)[i as int] == items@[i as int]@);
        if !value_well_formed(&items[i]) {
            return false;
        }
        i += 1;
    }
    true
}

fn values_well_formed(pairs: &Vec<(String, Value)>) -> (b: bool)
    ensures
        b == all_values_well_formed(entries(pairs@)),
    decreases pairs,
{
    let mut i: usize = 0;
    while i < pairs.len()
        invariant
            i <= pairs.len(),
            forall|j: int| 0 <= j < i ==> well_formed((#[trigger] entries(pairs@)[j]).1),
        decreases pairs.len() - i,
    {
        assert(entries(pairs@)[i as int].1 == pairs@[i as int].1@);
        if !value_well_formed(&pairs[i].1) {
            return false;
        }
        i += 1;
    }
    true
}

proof fn lemma_list_well_formed(items: Seq<Form>)
    ensures
        well_formed(Form::List(items)) == all_well_formed(items),
        well_formed(Form::Vector(items)) == all_well_formed(items),
{
    let list = Form::List(items);
    let vector = Form::Vector(items);
    assert(list->List_0 == items);
    assert(vector->Vector_0 == items);
    if all_well_formed(items) {
        assert forall|i: int| 0 <= i < items.len() implies well_formed(#[trigger] items[i]) by {}
        assert(well_formed(list));
        assert(well_formed(vector));
    }
    if well_formed(list) {
        assert forall|i: int| 0 <= i < items.len() implies well_formed(#[trigger] items[i]) by {}
    }
    if well_formed(vector) {
        assert forall|i: int| 0 <= i < items.len() implies well_formed(#[trigger] items[i]) by {}
    }
}

/// Whether a value is well formed.
pub fn value_well_formed(v: &Value) -> (b: bool)
    ensures
        b == well_formed(v@),
    decreases v,
{
    proof {
        lemma_views(*v);
        if v is Function {
            lemma_function(v->Function_0);
        }
    }
    match v {
        Value::List(items) => {
            let b = items_well_formed(items);
            proof {
                lemma_list_well_formed(forms(items@));
            }
            b
        },
        Value::Vector(items) => {
            let b = items_well_formed(items);
            proof {
                lemma_list_well_formed(forms(items@));
            }
            b
        },
        Value::Dict(pairs) => {
            let b = entries_distinct(pairs) && values_well_formed(pairs);
            assert(b == well_formed(v@));
            b
        },
        Value::Function(f) => {
            let b = match f {
                Function::Native(_) => true,
                Function::UserDefined { body, env, .. } => value_well_formed(body)
                    && env_well_formed(env),
                Function::Macro { body, env, .. } => value_well_formed(body) && env_well_formed(
                    env,
                ),
            };
            assert(v@ == Form::Function(f@));
            assert(b == well_formed(Form::Function(f@)));
            b
        },
        Value::Symbol(_) => true,
        Value::Number(_) => true,
        Value::Bool(_) => true,
        Value::Nil => true,
        Value::Str(_) => true,
        Value::Keyword(_) => true,
        Value::IOResource(_) => true,
        Value::Uninitialized => true,
    }
}

/// Whether an environment is well formed.
pub fn env_well_formed(e: &Env) -> (b: bool)
    ensures
        b == well_scoped(e@),
    decreases e,
{
    proof {
        lemma_scope_data(*e);
    }
    let parent = match &e.parent {
        Some(p) => env_well_formed(p),
        None => true,
    };
    parent && entries_distinct(&e.data) && values_well_formed(&e.data) && texts_distinct(
        &e.loaded_namespaces,
    ) && pairs_distinct(&e.namespace_aliases)
}

impl Value {
    /// Whether every map in the value, and every environment that a
    /// function in it holds, has no key twice.
    pub fn is_well_formed(&self) -> (b: bool)
        ensures
            b == well_formed(self@),
    {
        value_well_formed(self)
    }
}

impl Env {
    /// Whether the environment, parents included, binds no name twice in a
    /// frame and holds well-formed values only.
    pub fn is_well_formed(&self) -> (b: bool)
        ensures
            b == well_scoped(self@),
    {
        env_well_formed(self)
    }
}

} // verus!
