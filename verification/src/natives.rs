//! The native procedures that compute on values alone.
use vstd::prelude::*;
use crate::builtins::spread;
use crate::env::{assign, find_entry, lookup, put_entry};
use crate::equality::{same, value_eq};
use crate::forms::{fault, make_closure};
use crate::number::{
    absolute, bits_less, bits_nan, bits_odd, bits_whole, bits_zero, is_nan, is_odd, is_whole,
    is_zero, less, rank, zero,
};
use crate::printer::{push_value, show};
use crate::special::closure;
use crate::text::{join2, owned, Text};
use crate::value::{
    copy_entries, copy_values, forms, lemma_function, lemma_views, result_form, texts, truthy,
    Closure, Env, ErrorKind, EvalError, Fault, Form, Function, Number, Numeral, Scope, Value,
};

verus! {

/// A failure for a wrong number of arguments.
pub open spec fn arity(message: Text) -> Result<Form, Fault> {
    Err(Fault { kind: ErrorKind::ArityError, message })
}

/// A failure for an argument of the wrong sort.
pub open spec fn mismatch(message: Text) -> Result<Form, Fault> {
    Err(Fault { kind: ErrorKind::TypeError, message })
}

/// Whether each of `args[1..n]` equals `args[0]`.
pub open spec fn all_same(args: Seq<Form>, n: nat) -> bool
    decreases n,
{
    if n <= 1 || n > args.len() {
        true
    } else {
        all_same(args, (n - 1) as nat) && same(args[n - 1], args[0])
    }
}

/// `(= a b ...)`: whether all the others equal the first.
pub open spec fn equal(args: Seq<Form>) -> Result<Form, Fault> {
    if args.len() < 2 {
        arity("= requires at least 2 arguments"@)
    } else {
        Ok(Form::Bool(all_same(args, args.len())))
    }
}

/// `(not= a b)`.
pub open spec fn not_equal(args: Seq<Form>) -> Result<Form, Fault> {
    if args.len() != 2 {
        arity("not= requires exactly 2 arguments"@)
    } else {
        Ok(Form::Bool(!same(args[0], args[1])))
    }
}

/// `a <= b` on doubles: false where either is a NaN.
pub open spec fn at_most(a: u64, b: u64) -> bool {
    !is_nan(a) && !is_nan(b) && rank(a) <= rank(b)
}

/// `(< a b)`, `(> a b)`, `(<= a b)` and `(>= a b)` on two numbers.
pub open spec fn compare(name: Text, args: Seq<Form>) -> Result<Form, Fault> {
    if args.len() != 2 {
        arity(name + " requires exactly 2 arguments"@)
    } else {
        match (args[0], args[1]) {
            (Form::Number(a), Form::Number(b)) => Ok(
                Form::Bool(
                    if name == "<"@ {
                        less(a.bits, b.bits)
                    } else if name == ">"@ {
                        less(b.bits, a.bits)
                    } else if name == "<="@ {
                        at_most(a.bits, b.bits)
                    } else {
                        at_most(b.bits, a.bits)
                    },
                ),
            ),
            _ => mismatch(name + " requires numbers"@),
        }
    }
}

/// `(cons x list)`: `x` before the items of `list`; `nil` counts as the
/// empty list.
pub open spec fn cons(args: Seq<Form>) -> Result<Form, Fault> {
    if args.len() != 2 {
        arity("cons requires exactly 2 arguments"@)
    } else {
        match args[1] {
            Form::List(items) => Ok(Form::List(seq![args[0]] + items)),
            Form::Nil => Ok(Form::List(seq![args[0]])),
            _ => mismatch("cons requires a list as second argument"@),
        }
    }
}

/// `(first list)`: the first item; `nil` for the empty list and for `nil`.
pub open spec fn first(args: Seq<Form>) -> Result<Form, Fault> {
    if args.len() != 1 {
        arity("first requires exactly 1 argument"@)
    } else {
        match args[0] {
            Form::List(items) => if items.len() == 0 {
                Ok(Form::Nil)
            } else {
                Ok(items[0])
            },
            Form::Nil => Ok(Form::Nil),
            _ => mismatch("first requires a list"@),
        }
    }
}

/// `(rest list)`: the items after the first; `nil` where there are none.
pub open spec fn rest(args: Seq<Form>) -> Result<Form, Fault> {
    if args.len() != 1 {
        arity("rest requires exactly 1 argument"@)
    } else {
        match args[0] {
            Form::List(items) => if items.len() <= 1 {
                Ok(Form::Nil)
            } else {
                Ok(Form::List(items.skip(1)))
            },
            Form::Nil => Ok(Form::Nil),
            _ => mismatch("rest requires a list"@),
        }
    }
}

/// `(not x)`: `true` for a falsy value, `false` for a truthy one.
pub open spec fn negation(args: Seq<Form>) -> Result<Form, Fault> {
    if args.len() != 1 {
        arity("not requires exactly 1 argument"@)
    } else {
        Ok(Form::Bool(!truthy(args[0])))
    }
}

/// `(list ...)`: the arguments as a list; `nil` without arguments.
pub open spec fn list(args: Seq<Form>) -> Result<Form, Fault> {
    if args.len() == 0 {
        Ok(Form::Nil)
    } else {
        Ok(Form::List(args))
    }
}

/// The key that a keyword or a string stands for.
pub open spec fn as_key(f: Form) -> Option<Text> {
    match f {
        Form::Keyword(k) => Some(k),
        Form::Str(s) => Some(s),
        _ => None,
    }
}

/// `(get map key)`: the value at the key, `nil` where there is none.
pub open spec fn get(args: Seq<Form>) -> Result<Form, Fault> {
    if args.len() != 2 {
        arity("get requires exactly 2 arguments"@)
    } else {
        match (args[0], as_key(args[1])) {
            (Form::Dict(pairs), Some(key)) => match lookup(pairs, key) {
                Some(v) => Ok(v),
                None => Ok(Form::Nil),
            },
            _ => mismatch("get requires a map and a key"@),
        }
    }
}

/// `(assoc map key value)`: the map with the key bound to the value.
pub open spec fn assoc(args: Seq<Form>) -> Result<Form, Fault> {
    if args.len() != 3 {
        arity("assoc requires exactly 3 arguments"@)
    } else {
        match args[0] {
            Form::Dict(pairs) => match as_key(args[1]) {
                Some(key) => Ok(Form::Dict(assign(pairs, key, args[2]))),
                None => mismatch("assoc key must be a keyword or string"@),
            },
            _ => mismatch("assoc requires a map as first argument"@),
        }
    }
}

/// Whether one of the first `n` of `items` equals `v`.
pub open spec fn any_same(items: Seq<Form>, v: Form, n: nat) -> bool
    decreases n,
{
    if n == 0 || n > items.len() {
        false
    } else {
        any_same(items, v, (n - 1) as nat) || same(items[n - 1], v)
    }
}

/// `(contains? coll x)`: whether a list holds an item equal to `x`, or a
/// map binds the key `x`.
pub open spec fn contains(args: Seq<Form>) -> Result<Form, Fault> {
    if args.len() != 2 {
        arity("contains? requires exactly 2 arguments"@)
    } else {
        match args[0] {
            Form::List(items) => Ok(Form::Bool(any_same(items, args[1], items.len()))),
            Form::Dict(pairs) => match as_key(args[1]) {
                Some(key) => Ok(Form::Bool(lookup(pairs, key) is Some)),
                None => mismatch("contains? requires a list/map and a value"@),
            },
            _ => mismatch("contains? requires a list/map and a value"@),
        }
    }
}

/// A form as `str` writes it: a string and a keyword bare, a function by
/// its sort, anything else as source text.
pub open spec fn str_piece(f: Form) -> Text {
    match f {
        Form::Str(s) => s,
        Form::Keyword(k) => k,
        Form::Function(Closure::Macro { .. }) => "#<macro>"@,
        Form::Function(_) => "#<function>"@,
        _ => show(f),
    }
}

/// The first `n` of `args` as `str` writes them, one after the other.
pub open spec fn str_upto(args: Seq<Form>, n: nat) -> Text
    decreases n,
{
    if n == 0 || n > args.len() {
        Seq::empty()
    } else {
        str_upto(args, (n - 1) as nat) + str_piece(args[n - 1])
    }
}

/// One value in, a boolean out: the predicates on any value.
pub open spec fn holds(name: Text, f: Form) -> Option<bool> {
    if name == "nil?"@ {
        Some(f is Nil)
    } else if name == "true?"@ {
        Some(f == Form::Bool(true))
    } else if name == "false?"@ {
        Some(f == Form::Bool(false))
    } else if name == "some?"@ {
        Some(!(f is Nil))
    } else if name == "string?"@ {
        Some(f is Str)
    } else if name == "number?"@ {
        Some(f is Number)
    } else if name == "vector?"@ {
        Some(f is Vector)
    } else if name == "list?"@ {
        Some(f is List)
    } else if name == "map?"@ {
        Some(f is Dict)
    } else if name == "empty?"@ {
        Some(
            match f {
                Form::List(items) => items.len() == 0,
                Form::Vector(items) => items.len() == 0,
                Form::Str(s) => s.len() == 0,
                Form::Nil => true,
                _ => false,
            },
        )
    } else {
        None
    }
}

/// One number in, a boolean out: the predicates on the sign.
pub open spec fn sign_holds(name: Text, bits: u64) -> Option<bool> {
    if name == "zero?"@ {
        Some(is_zero(bits))
    } else if name == "pos?"@ {
        Some(less(zero().bits, bits))
    } else if name == "neg?"@ || name == "negative?"@ {
        Some(less(bits, zero().bits))
    } else {
        None
    }
}

/// The least, or the greatest, of the first `n` of `args`, where all of
/// them are numbers. Of two that compare equal the earlier one stays.
pub open spec fn extreme(args: Seq<Form>, n: nat, greatest: bool) -> Option<Numeral>
    decreases n,
{
    if n == 0 || n > args.len() {
        None
    } else if n == 1 {
        match args[0] {
            Form::Number(x) => Some(x),
            _ => None,
        }
    } else {
        match (extreme(args, (n - 1) as nat, greatest), args[n - 1]) {
            (Some(best), Form::Number(x)) => if (greatest && less(best.bits, x.bits)) || (
            !greatest && less(x.bits, best.bits)) {
                Some(x)
            } else {
                Some(best)
            },
            _ => None,
        }
    }
}

/// `(min a b ...)` and `(max a b ...)`.
pub open spec fn extremum(name: Text, args: Seq<Form>) -> Result<Form, Fault> {
    if args.len() < 2 {
        arity(name + " requires at least 2 arguments"@)
    } else {
        match extreme(args, args.len(), name == "max"@) {
            Some(x) => Ok(Form::Number(x)),
            None => mismatch(name + " requires numbers"@),
        }
    }
}

/// The items of the first `n` of `args`, each a list, a vector or `nil`,
/// one after the other.
pub open spec fn concat_upto(args: Seq<Form>, n: nat) -> Option<Seq<Form>>
    decreases n,
{
    if n == 0 || n > args.len() {
        Some(Seq::empty())
    } else {
        match (concat_upto(args, (n - 1) as nat), spread(args[n - 1])) {
            (Some(before), Some(items)) => Some(before + items),
            _ => None,
        }
    }
}

/// What the pure native `name` gives for one argument.
pub open spec fn pure_unary(name: Text, f: Form) -> Option<Result<Form, Fault>> {
    if holds(name, f) is Some {
        Some(Ok(Form::Bool(holds(name, f)->0)))
    } else if sign_holds(name, 0) is Some {
        match f {
            Form::Number(n) => Some(Ok(Form::Bool(sign_holds(name, n.bits)->0))),
            _ => Some(mismatch(name + " requires a number"@)),
        }
    } else if name == "even?"@ || name == "odd?"@ {
        match f {
            Form::Number(n) => if is_whole(n.bits) {
                Some(Ok(Form::Bool(is_odd(n.bits) == (name == "odd?"@))))
            } else {
                Some(mismatch(name + " requires an integer"@))
            },
            _ => Some(mismatch(name + " requires a number"@)),
        }
    } else if name == "abs"@ {
        match f {
            Form::Number(n) => Some(Ok(Form::Number(absolute(n)))),
            _ => Some(mismatch("abs requires a number"@)),
        }
    } else if name == "identity"@ {
        Some(Ok(f))
    } else if name == "constantly"@ {
        Some(Ok(closure(false, seq!["_"@], f, Scope::root())))
    } else {
        None
    }
}

/// What the pure native `name` gives for `args`; `None` where the library
/// has no pure native of that name.
pub open spec fn pure(name: Text, args: Seq<Form>) -> Option<Result<Form, Fault>> {
    if name == "="@ {
        Some(equal(args))
    } else if name == "not="@ {
        Some(not_equal(args))
    } else if name == "<"@ || name == ">"@ || name == "<="@ || name == ">="@ {
        Some(compare(name, args))
    } else if name == "cons"@ {
        Some(cons(args))
    } else if name == "first"@ {
        Some(first(args))
    } else if name == "rest"@ {
        Some(rest(args))
    } else if name == "not"@ {
        Some(negation(args))
    } else if name == "list"@ {
        Some(list(args))
    } else if name == "get"@ {
        Some(get(args))
    } else if name == "assoc"@ {
        Some(assoc(args))
    } else if name == "contains?"@ {
        Some(contains(args))
    } else if name == "str"@ {
        Some(Ok(Form::Str(str_upto(args, args.len()))))
    } else if name == "min"@ || name == "max"@ {
        Some(extremum(name, args))
    } else if name == "concat"@ {
        match concat_upto(args, args.len()) {
            Some(items) => Some(Ok(Form::List(items))),
            None => Some(mismatch("concat requires lists, vectors, or nil"@)),
        }
    } else if pure_unary(name, Form::Nil) is Some {
        if args.len() != 1 {
            Some(arity(name + " requires exactly 1 argument"@))
        } else {
            pure_unary(name, args[0])
        }
    } else {
        None
    }
}

fn arity_error(message: String) -> (r: Result<Value, EvalError>)
    ensures
        result_form(r) == arity(message@),
{
    Err(fault(ErrorKind::ArityError, message))
}

fn mismatch_error(message: String) -> (r: Result<Value, EvalError>)
    ensures
        result_form(r) == mismatch(message@),
{
    Err(fault(ErrorKind::TypeError, message))
}

fn run_equal(args: &Vec<Value>) -> (r: Result<Value, EvalError>)
    ensures
        result_form(r) == equal(forms(args@)),
{
    if args.len() < 2 {
        return arity_error(owned("= requires at least 2 arguments"));
    }
    let mut i: usize = 1;
    while i < args.len()
        invariant
            1 <= i <= args.len(),
            all_same(forms(args@), i as nat),
        decreases args.len() - i,
    {
        if !value_eq(&args[i], &args[0]) {
            proof {
                lemma_not_all_same(forms(args@), (i + 1) as nat, args@.len() as nat);
            }
            return Ok(Value::Bool(false));
        }
        i += 1;
    }
    Ok(Value::Bool(true))
}

proof fn lemma_not_all_same(args: Seq<Form>, n: nat, m: nat)
    requires
        n <= m <= args.len(),
        !all_same(args, n),
    ensures
        !all_same(args, m),
    decreases m - n,
{
    if n < m {
        lemma_not_all_same(args, n, (m - 1) as nat);
    }
}

fn run_not_equal(args: &Vec<Value>) -> (r: Result<Value, EvalError>)
    ensures
        result_form(r) == not_equal(forms(args@)),
{
    if args.len() != 2 {
        arity_error(owned("not= requires exactly 2 arguments"))
    } else {
        Ok(Value::Bool(!value_eq(&args[0], &args[1])))
    }
}

fn bits_at_most(a: u64, b: u64) -> (r: bool)
    ensures
        r == at_most(a, b),
{
    !bits_nan(a) && !bits_nan(b) && !bits_less(b, a)
}

fn run_compare(name: &str, args: &Vec<Value>) -> (r: Result<Value, EvalError>)
    ensures
        result_form(r) == compare(name@, forms(args@)),
{
    if args.len() != 2 {
        arity_error(join2(name, " requires exactly 2 arguments"))
    } else {
        match (&args[0], &args[1]) {
            (Value::Number(a), Value::Number(b)) => {
                let holds = if name.eq("<") {
                    bits_less(a.bits, b.bits)
                } else if name.eq(">") {
                    bits_less(b.bits, a.bits)
                } else if name.eq("<=") {
                    bits_at_most(a.bits, b.bits)
                } else {
                    bits_at_most(b.bits, a.bits)
                };
                Ok(Value::Bool(holds))
            },
            _ => mismatch_error(join2(name, " requires numbers")),
        }
    }
}

fn run_cons(args: &Vec<Value>) -> (r: Result<Value, EvalError>)
    ensures
        result_form(r) == cons(forms(args@)),
{
    if args.len() != 2 {
        return arity_error(owned("cons requires exactly 2 arguments"));
    }
    proof {
        lemma_views(args@[1]);
    }
    match &args[1] {
        Value::List(items) => {
            let mut out: Vec<Value> = Vec::new();
            out.push(args[0].clone());
            let mut tail = copy_values(items);
            let ghost head = out@;
            let ghost more = tail@;
            out.append(&mut tail);
            let v = Value::List(out);
            proof {
                lemma_views(v);
                assert(forms(out@) =~= seq![args@[0]@] + forms(items@)) by {
                    assert(forms(more) == forms(items@));
                    assert(forms(head + more) =~= forms(head) + forms(more));
                    assert(forms(head) =~= seq![args@[0]@]);
                }
            }
            Ok(v)
        },
        Value::Nil => {
            let mut out: Vec<Value> = Vec::new();
            out.push(args[0].clone());
            let v = Value::List(out);
            proof {
                lemma_views(v);
                assert(forms(out@) =~= seq![args@[0]@]);
            }
            Ok(v)
        },
        _ => mismatch_error(owned("cons requires a list as second argument")),
    }
}

fn run_first(args: &Vec<Value>) -> (r: Result<Value, EvalError>)
    ensures
        result_form(r) == first(forms(args@)),
{
    if args.len() != 1 {
        return arity_error(owned("first requires exactly 1 argument"));
    }
    proof {
        lemma_views(args@[0]);
    }
    match &args[0] {
        Value::List(items) => {
            if items.len() == 0 {
                Ok(Value::Nil)
            } else {
                Ok(items[0].clone())
            }
        },
        Value::Nil => Ok(Value::Nil),
        _ => mismatch_error(owned("first requires a list")),
    }
}

fn run_rest(args: &Vec<Value>) -> (r: Result<Value, EvalError>)
    ensures
        result_form(r) == rest(forms(args@)),
{
    if args.len() != 1 {
        return arity_error(owned("rest requires exactly 1 argument"));
    }
    proof {
        lemma_views(args@[0]);
    }
    match &args[0] {
        Value::List(items) => {
            if items.len() <= 1 {
                Ok(Value::Nil)
            } else {
                let v = Value::List(crate::step::copy_from(items, 1));
                proof {
                    lemma_views(v);
                }
                Ok(v)
            }
        },
        Value::Nil => Ok(Value::Nil),
        _ => mismatch_error(owned("rest requires a list")),
    }
}

fn run_list(args: &Vec<Value>) -> (r: Result<Value, EvalError>)
    ensures
        result_form(r) == list(forms(args@)),
{
    if args.len() == 0 {
        Ok(Value::Nil)
    } else {
        let v = Value::List(copy_values(args));
        proof {
            lemma_views(v);
        }
        Ok(v)
    }
}

fn key_of_value(v: &Value) -> (r: Option<&String>)
    ensures
        match r {
            Some(k) => as_key(v@) == Some(k@),
            None => as_key(v@) is None,
        },
{
    match v {
        Value::Keyword(k) => Some(k),
        Value::Str(s) => Some(s),
        _ => None,
    }
}

fn run_get(args: &Vec<Value>) -> (r: Result<Value, EvalError>)
    ensures
        result_form(r) == get(forms(args@)),
{
    if args.len() != 2 {
        return arity_error(owned("get requires exactly 2 arguments"));
    }
    proof {
        lemma_views(args@[0]);
    }
    match (&args[0], key_of_value(&args[1])) {
        (Value::Dict(pairs), Some(key)) => {
            let i = find_entry(pairs, key.as_str());
            if i < pairs.len() {
                Ok(pairs[i].1.clone())
            } else {
                Ok(Value::Nil)
            }
        },
        _ => mismatch_error(owned("get requires a map and a key")),
    }
}

fn run_assoc(args: &Vec<Value>) -> (r: Result<Value, EvalError>)
    ensures
        result_form(r) == assoc(forms(args@)),
{
    if args.len() != 3 {
        return arity_error(owned("assoc requires exactly 3 arguments"));
    }
    proof {
        lemma_views(args@[0]);
    }
    match &args[0] {
        Value::Dict(pairs) => {
            match key_of_value(&args[1]) {
                Some(key) => {
                    let mut out = copy_entries(pairs);
                    put_entry(&mut out, key.clone(), args[2].clone());
                    let v = Value::Dict(out);
                    proof {
                        lemma_views(v);
                    }
                    Ok(v)
                },
                None => mismatch_error(owned("assoc key must be a keyword or string")),
            }
        },
        _ => mismatch_error(owned("assoc requires a map as first argument")),
    }
}

proof fn lemma_any_same(items: Seq<Form>, v: Form, n: nat, m: nat)
    requires
        n <= m <= items.len(),
        any_same(items, v, n),
    ensures
        any_same(items, v, m),
    decreases m - n,
{
    if n < m {
        lemma_any_same(items, v, n, (m - 1) as nat);
    }
}

#[verifier::loop_isolation(false)]
fn run_contains(args: &Vec<Value>) -> (r: Result<Value, EvalError>)
    ensures
        result_form(r) == contains(forms(args@)),
{
    if args.len() != 2 {
        return arity_error(owned("contains? requires exactly 2 arguments"));
    }
    proof {
        lemma_views(args@[0]);
    }
    match &args[0] {
        Value::List(items) => {
            let mut i: usize = 0;
            while i < items.len()
                invariant
                    i <= items.len(),
                    !any_same(forms(items@), args@[1]@, i as nat),
                decreases items.len() - i,
            {
                if value_eq(&items[i], &args[1]) {
                    proof {
                        assert(forms(items@)[i as int] == items@[i as int]@);
                        assert(any_same(forms(items@), args@[1]@, (i + 1) as nat));
                        lemma_any_same(
                            forms(items@),
                            args@[1]@,
                            (i + 1) as nat,
                            items@.len() as nat,
                        );
                    }
                    return Ok(Value::Bool(true));
                }
                assert(forms(items@)[i as int] == items@[i as int]@);
                i += 1;
            }
            Ok(Value::Bool(false))
        },
        Value::Dict(pairs) => {
            match key_of_value(&args[1]) {
                Some(key) => Ok(Value::Bool(find_entry(pairs, key.as_str()) < pairs.len())),
                None => mismatch_error(owned("contains? requires a list/map and a value")),
            }
        },
        _ => mismatch_error(owned("contains? requires a list/map and a value")),
    }
}

fn push_str_piece(out: &mut String, v: &Value)
    ensures
        final(out)@ == old(out)@ + str_piece(v@),
{
    proof {
        lemma_views(*v);
        if v is Function {
            lemma_function(v->Function_0);
        }
    }
    match v {
        Value::Str(s) => out.append(s.as_str()),
        Value::Keyword(k) => out.append(k.as_str()),
        Value::Function(Function::Macro { .. }) => out.append("#<macro>"),
        Value::Function(_) => out.append("#<function>"),
        other => push_value(out, other),
    }
}

fn run_str(args: &Vec<Value>) -> (r: Result<Value, EvalError>)
    ensures
        result_form(r) == Ok::<Form, Fault>(Form::Str(str_upto(forms(args@), args@.len()))),
{
    let mut out = String::new();
    let mut i: usize = 0;
    assert(out@ =~= str_upto(forms(args@), 0));
    while i < args.len()
        invariant
            i <= args.len(),
            out@ == str_upto(forms(args@), i as nat),
        decreases args.len() - i,
    {
        push_str_piece(&mut out, &args[i]);
        assert(forms(args@)[i as int] == args@[i as int]@);
        i += 1;
    }
    Ok(Value::Str(out))
}

#[verifier::loop_isolation(false)]
fn run_extremum(name: &str, args: &Vec<Value>) -> (r: Result<Value, EvalError>)
    ensures
        result_form(r) == extremum(name@, forms(args@)),
{
    if args.len() < 2 {
        return arity_error(join2(name, " requires at least 2 arguments"));
    }
    let greatest = name.eq("max");
    let mut best = match &args[0] {
        Value::Number(x) => x.clone(),
        _ => {
            proof {
                lemma_no_extreme(forms(args@), 1, args@.len() as nat, greatest);
            }
            return mismatch_error(join2(name, " requires numbers"));
        },
    };
    let mut i: usize = 1;
    while i < args.len()
        invariant
            1 <= i <= args.len(),
            extreme(forms(args@), i as nat, greatest) == Some(best@),
        decreases args.len() - i,
    {
        assert(forms(args@)[i as int] == args@[i as int]@);
        match &args[i] {
            Value::Number(x) => {
                if (greatest && bits_less(best.bits, x.bits)) || (!greatest && bits_less(
                    x.bits,
                    best.bits,
                )) {
                    best = x.clone();
                }
            },
            _ => {
                proof {
                    lemma_no_extreme(
                        forms(args@),
                        (i + 1) as nat,
                        args@.len() as nat,
                        greatest,
                    );
                }
                return mismatch_error(join2(name, " requires numbers"));
            },
        }
        i += 1;
    }
    Ok(Value::Number(best))
}

proof fn lemma_no_extreme(args: Seq<Form>, n: nat, m: nat, greatest: bool)
    requires
        1 <= n <= m <= args.len(),
        extreme(args, n, greatest) is None,
    ensures
        extreme(args, m, greatest) is None,
    decreases m - n,
{
    if n < m {
        lemma_no_extreme(args, n, (m - 1) as nat, greatest);
    }
}

proof fn lemma_no_concat(args: Seq<Form>, n: nat, m: nat)
    requires
        n <= m <= args.len(),
        concat_upto(args, n) is None,
    ensures
        concat_upto(args, m) is None,
    decreases m - n,
{
    if n < m {
        lemma_no_concat(args, n, (m - 1) as nat);
    }
}

fn run_concat(args: &Vec<Value>) -> (r: Result<Value, EvalError>)
    ensures
        match concat_upto(forms(args@), args@.len()) {
            Some(items) => result_form(r) == Ok::<Form, Fault>(Form::List(items)),
            None => result_form(r) == mismatch("concat requires lists, vectors, or nil"@),
        },
{
    let mut out: Vec<Value> = Vec::new();
    let mut i: usize = 0;
    assert(forms(out@) =~= Seq::empty());
    while i < args.len()
        invariant
            i <= args.len(),
            concat_upto(forms(args@), i as nat) == Some(forms(out@)),
        decreases args.len() - i,
    {
        proof {
            lemma_views(args@[i as int]);
            assert(forms(args@)[i as int] == args@[i as int]@);
        }
        let more = match &args[i] {
            Value::List(items) => Some(copy_values(items)),
            Value::Vector(items) => Some(copy_values(items)),
            Value::Nil => {
                let none: Vec<Value> = Vec::new();
                assert(forms(none@) =~= Seq::empty());
                Some(none)
            },
            _ => None,
        };
        match more {
            Some(items) => {
                let mut items = items;
                let ghost before = out@;
                let ghost added = items@;
                out.append(&mut items);
                assert(forms(out@) =~= forms(before) + forms(added));
            },
            None => {
                proof {
                    lemma_no_concat(forms(args@), (i + 1) as nat, args@.len() as nat);
                }
                return mismatch_error(owned("concat requires lists, vectors, or nil"));
            },
        }
        i += 1;
    }
    let v = Value::List(out);
    proof {
        lemma_views(v);
    }
    Ok(v)
}

fn check_holds(name: &str, v: &Value) -> (r: Option<bool>)
    ensures
        r == holds(name@, v@),
{
    proof {
        lemma_views(*v);
    }
    if name.eq("nil?") {
        Some(
            match v {
                Value::Nil => true,
                _ => false,
            },
        )
    } else if name.eq("true?") {
        Some(
            match v {
                Value::Bool(true) => true,
                _ => false,
            },
        )
    } else if name.eq("false?") {
        Some(
            match v {
                Value::Bool(false) => true,
                _ => false,
            },
        )
    } else if name.eq("some?") {
        Some(
            match v {
                Value::Nil => false,
                _ => true,
            },
        )
    } else if name.eq("string?") {
        Some(
            match v {
                Value::Str(_) => true,
                _ => false,
            },
        )
    } else if name.eq("number?") {
        Some(
            match v {
                Value::Number(_) => true,
                _ => false,
            },
        )
    } else if name.eq("vector?") {
        Some(
            match v {
                Value::Vector(_) => true,
                _ => false,
            },
        )
    } else if name.eq("list?") {
        Some(
            match v {
                Value::List(_) => true,
                _ => false,
            },
        )
    } else if name.eq("map?") {
        Some(
            match v {
                Value::Dict(_) => true,
                _ => false,
            },
        )
    } else if name.eq("empty?") {
        Some(
            match v {
                Value::List(items) => items.len() == 0,
                Value::Vector(items) => items.len() == 0,
                Value::Str(s) => s.as_str().unicode_len() == 0,
                Value::Nil => true,
                _ => false,
            },
        )
    } else {
        None
    }
}

fn check_sign(name: &str, bits: u64) -> (r: Option<bool>)
    ensures
        r == sign_holds(name@, bits),
{
    if name.eq("zero?") {
        Some(bits_zero(bits))
    } else if name.eq("pos?") {
        Some(bits_less(0, bits))
    } else if name.eq("neg?") || name.eq("negative?") {
        Some(bits_less(bits, 0))
    } else {
        None
    }
}

fn run_pure_unary(name: &str, v: &Value) -> (r: Option<Result<Value, EvalError>>)
    ensures
        match r {
            Some(outcome) => pure_unary(name@, v@) == Some(result_form(outcome)),
            None => pure_unary(name@, v@) is None,
        },
{
    match check_holds(name, v) {
        Some(b) => {
            return Some(Ok(Value::Bool(b)));
        },
        None => {},
    }
    if check_sign(name, 0).is_some() {
        match v {
            Value::Number(n) => {
                let b = match check_sign(name, n.bits) {
                    Some(b) => b,
                    None => false,
                };
                Some(Ok(Value::Bool(b)))
            },
            _ => Some(mismatch_error(join2(name, " requires a number"))),
        }
    } else if name.eq("even?") || name.eq("odd?") {
        match v {
            Value::Number(n) => {
                if bits_whole(n.bits) {
                    Some(Ok(Value::Bool(bits_odd(n.bits) == name.eq("odd?"))))
                } else {
                    Some(mismatch_error(join2(name, " requires an integer")))
                }
            },
            _ => Some(mismatch_error(join2(name, " requires a number"))),
        }
    } else if name.eq("abs") {
        match v {
            Value::Number(n) => Some(Ok(Value::Number(n.abs()))),
            _ => Some(mismatch_error(owned("abs requires a number"))),
        }
    } else if name.eq("identity") {
        Some(Ok(v.clone()))
    } else if name.eq("constantly") {
        let mut params: Vec<String> = Vec::new();
        params.push(owned("_"));
        assert(texts(params@) =~= seq!["_"@]);
        Some(Ok(make_closure(false, params, v.clone(), Env::new())))
    } else {
        None
    }
}

/// Calls the pure native `name`, if the library has one.
pub fn run_pure(name: &str, args: &Vec<Value>) -> (r: Option<Result<Value, EvalError>>)
    ensures
        match r {
            Some(outcome) => pure(name@, forms(args@)) == Some(result_form(outcome)),
            None => pure(name@, forms(args@)) is None,
        },
{
    if name.eq("=") {
        Some(run_equal(args))
    } else if name.eq("not=") {
        Some(run_not_equal(args))
    } else if name.eq("<") || name.eq(">") || name.eq("<=") || name.eq(">=") {
        Some(run_compare(name, args))
    } else if name.eq("cons") {
        Some(run_cons(args))
    } else if name.eq("first") {
        Some(run_first(args))
    } else if name.eq("rest") {
        Some(run_rest(args))
    } else if name.eq("not") {
        if args.len() != 1 {
            Some(arity_error(owned("not requires exactly 1 argument")))
        } else {
            Some(Ok(Value::Bool(!args[0].is_truthy())))
        }
    } else if name.eq("list") {
        Some(run_list(args))
    } else if name.eq("get") {
        Some(run_get(args))
    } else if name.eq("assoc") {
        Some(run_assoc(args))
    } else if name.eq("contains?") {
        Some(run_contains(args))
    } else if name.eq("str") {
        Some(run_str(args))
    } else if name.eq("min") || name.eq("max") {
        Some(run_extremum(name, args))
    } else if name.eq("concat") {
        Some(run_concat(args))
    } else if run_pure_unary(name, &Value::Nil).is_some() {
        if args.len() != 1 {
            Some(arity_error(join2(name, " requires exactly 1 argument")))
        } else {
            run_pure_unary(name, &args[0])
        }
    } else {
        None
    }
}

} // verus!
