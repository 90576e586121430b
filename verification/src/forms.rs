//! The machine's moves for the special forms.
use vstd::prelude::*;
use crate::env::{find_entry, put_entry};
use crate::machine::{lemma_conts_push, Control, Each, Frame, HostRequest, Machine, Purpose, State};
use crate::special::{
    bind_from, closure, def_form, defn_form, do_form, enter, essentials, expand_once, fn_form,
    if_form, install, install_upto, is_constant, let_form, letrec_form, letrec_names, load_form,
    load_namespace, logic_form, macroexpand_form, namespace_path, ns_form, prebind,
    quasiquote_form, quasiquoted, quote_form, rebind_from, replaced, require_form, required,
    selection, sourced, special, substitute, substitutions, unquoted,
};
use crate::semantics::{parameters, symbols_upto};
use crate::step::{arity_text, bind_params, copy_from, Rest};
use crate::text::{chars_of, join2, join3, owned, string_from, Text};
use crate::value::{
    entries, forms, lemma_texts_push, lemma_views, texts, Env, ErrorKind, EvalError, Fault, Form,
    Function, Scope, Value,
};

verus! {

/// A failure of the given kind.
pub fn fault(kind: ErrorKind, message: String) -> (e: EvalError)
    ensures
        e@ == (Fault { kind, message: message@ }),
{
    EvalError { kind, message }
}

/// The parameters that a vector of symbols names.
pub fn parameter_names(what: &str, spec: &Value) -> (r: Result<Vec<String>, EvalError>)
    ensures
        match parameters(what@, spec@) {
            Ok(params) => r is Ok && texts(r->Ok_0@) == params,
            Err(e) => r is Err && r->Err_0@ == e,
        },
{
    proof {
        lemma_views(*spec);
    }
    match spec {
        Value::Vector(items) => {
            let mut out: Vec<String> = Vec::new();
            let mut i: usize = 0;
            assert(texts(out@) =~= Seq::empty());
            while i < items.len()
                invariant
                    i <= items.len(),
                    spec@ == Form::Vector(forms(items@)),
                    symbols_upto(forms(items@), i as nat) == Some(texts(out@)),
                decreases items.len() - i,
            {
                match &items[i] {
                    Value::Symbol(name) => {
                        let name = name.clone();
                        proof {
                            assert(forms(items@)[i as int] == items@[i as int]@);
                            lemma_texts_push(out@, name);
                        }
                        out.push(name);
                    },
                    _ => {
                        proof {
                            assert(forms(items@)[i as int] == items@[i as int]@);
                            assert(symbols_upto(forms(items@), (i + 1) as nat) is None);
                            lemma_no_symbols(forms(items@), (i + 1) as nat, items@.len() as nat);
                        }
                        return Err(
                            fault(ErrorKind::TypeError, join2(what, " parameters must be symbols")),
                        );
                    },
                }
                i += 1;
            }
            Ok(out)
        },
        _ => Err(fault(ErrorKind::TypeError, join2(what, " parameters must be a vector"))),
    }
}

proof fn lemma_no_symbols(items: Seq<Form>, n: nat, m: nat)
    requires
        n <= m <= items.len(),
        symbols_upto(items, n) is None,
    ensures
        symbols_upto(items, m) is None,
    decreases m - n,
{
    if n < m {
        lemma_no_symbols(items, n, (m - 1) as nat);
    }
}

/// The function or macro that `params` and `body` make in `env`.
pub fn make_closure(is_macro: bool, params: Vec<String>, body: Value, env: Env) -> (v: Value)
    ensures
        v@ == closure(is_macro, texts(params@), body@, env@),
{
    let f = if is_macro {
        Function::Macro { params, body: Box::new(body), env }
    } else {
        Function::UserDefined { params, body: Box::new(body), env }
    };
    proof {
        crate::value::lemma_function(f);
    }
    Value::Function(f)
}

fn run_def(rest: Rest, items: Vec<Value>, Ghost(s): Ghost<State>) -> (m: Machine)
    requires
        rest.of(s),
    ensures
        m@ == def_form(s, forms(items@)),
{
    if items.len() != 3 {
        rest.fail(ErrorKind::ArityError, owned("def requires exactly 2 arguments"), Ghost(s))
    } else {
        match &items[1] {
            Value::Symbol(name) => {
                let frame = Frame::Define { name: name.clone() };
                rest.push(frame, Ghost(s)).to(
                    Control::Eval(items[2].clone()),
                    Ghost(s.push(frame@)),
                )
            },
            _ => rest.fail(
                ErrorKind::TypeError,
                owned("First argument to def must be a symbol"),
                Ghost(s),
            ),
        }
    }
}

fn run_defn(rest: Rest, items: Vec<Value>, is_macro: bool, Ghost(s): Ghost<State>) -> (m: Machine)
    requires
        rest.of(s),
    ensures
        m@ == defn_form(s, forms(items@), is_macro),
{
    let word = if is_macro {
        "defmacro"
    } else {
        "defn"
    };
    let what = if is_macro {
        "Macro"
    } else {
        "Function"
    };
    if items.len() != 4 {
        rest.fail(ErrorKind::ArityError, join2(word, " requires exactly 3 arguments"), Ghost(s))
    } else {
        match &items[1] {
            Value::Symbol(name) => {
                match parameter_names(what, &items[2]) {
                    Ok(params) => {
                        let f = make_closure(is_macro, params, items[3].clone(), rest.env.clone());
                        let Rest { env, stack, depth } = rest;
                        let mut env = env;
                        env.set_namespaced(name.clone(), f.clone());
                        Machine { control: Control::Return(f), env, stack, depth }
                    },
                    Err(e) => rest.to(Control::Raise(e), Ghost(s)),
                }
            },
            _ => rest.fail(
                ErrorKind::TypeError,
                join3("First argument to ", word, " must be a symbol"),
                Ghost(s),
            ),
        }
    }
}

fn run_fn(rest: Rest, items: Vec<Value>, Ghost(s): Ghost<State>) -> (m: Machine)
    requires
        rest.of(s),
    ensures
        m@ == fn_form(s, forms(items@)),
{
    if items.len() != 3 {
        rest.fail(ErrorKind::ArityError, owned("fn requires exactly 2 arguments"), Ghost(s))
    } else {
        match parameter_names("Function", &items[1]) {
            Ok(params) => {
                let f = make_closure(false, params, items[2].clone(), rest.env.clone());
                rest.give(f, Ghost(s))
            },
            Err(e) => rest.to(Control::Raise(e), Ghost(s)),
        }
    }
}

fn run_if(rest: Rest, items: Vec<Value>, Ghost(s): Ghost<State>) -> (m: Machine)
    requires
        rest.of(s),
    ensures
        m@ == if_form(s, forms(items@)),
{
    if items.len() != 4 {
        rest.fail(ErrorKind::ArityError, owned("if requires exactly 3 arguments"), Ghost(s))
    } else {
        let frame = Frame::Branch { then_form: items[2].clone(), else_form: items[3].clone() };
        rest.push(frame, Ghost(s)).to(Control::Eval(items[1].clone()), Ghost(s.push(frame@)))
    }
}

fn run_do(rest: Rest, items: Vec<Value>, Ghost(s): Ghost<State>) -> (m: Machine)
    requires
        rest.of(s),
    ensures
        m@ == do_form(s, forms(items@)),
{
    if items.len() < 2 {
        rest.fail(ErrorKind::ArityError, owned("do requires at least 1 argument"), Ghost(s))
    } else {
        let first = items[1].clone();
        let frame = Frame::Each { each: Each::Do, forms: items, next: 2 };
        rest.push(frame, Ghost(s)).to(Control::Eval(first), Ghost(s.push(frame@)))
    }
}

fn run_logic(rest: Rest, items: Vec<Value>, each: Each, Ghost(s): Ghost<State>) -> (m: Machine)
    requires
        rest.of(s),
        each@ is And || each@ is Or,
    ensures
        m@ == logic_form(s, forms(items@), each@),
{
    if items.len() <= 1 {
        match each {
            Each::And => rest.give(Value::Bool(true), Ghost(s)),
            _ => rest.give(Value::Nil, Ghost(s)),
        }
    } else {
        let first = items[1].clone();
        let frame = Frame::Each { each, forms: items, next: 2 };
        rest.push(frame, Ghost(s)).to(Control::Eval(first), Ghost(s.push(frame@)))
    }
}

/// Goes on with the `let` pair at `next`, or with the body after the last.
pub(crate) fn bind_next(rest: Rest, bindings: Vec<Value>, next: usize, body: Value, Ghost(s): Ghost<
    State,
>) -> (m: Machine)
    requires
        rest.of(s),
    ensures
        m@ == bind_from(s, forms(bindings@), next as nat, body@),
{
    if next >= bindings.len() || next + 1 >= bindings.len() {
        rest.to(Control::Eval(body), Ghost(s))
    } else {
        match &bindings[next] {
            Value::Symbol(_) => {
                let value = bindings[next + 1].clone();
                let frame = Frame::Bind { bindings, next, body };
                rest.push(frame, Ghost(s)).to(Control::Eval(value), Ghost(s.push(frame@)))
            },
            _ => rest.fail(ErrorKind::TypeError, owned("Binding names must be symbols"), Ghost(s)),
        }
    }
}

/// In a fresh frame over the current environment.
fn enter_frame(rest: Rest, Ghost(s): Ghost<State>) -> (r: Rest)
    requires
        rest.of(s),
    ensures
        r.of(enter(s)),
{
    let Rest { env: saved, stack, depth } = rest;
    let local = Env::with_parent(saved.clone());
    let mut stack = stack;
    let frame = Frame::Restore { saved, leave: false };
    proof {
        lemma_conts_push(stack@, frame);
    }
    stack.push(frame);
    Rest { env: local, stack, depth }
}

fn run_let(rest: Rest, items: Vec<Value>, Ghost(s): Ghost<State>) -> (m: Machine)
    requires
        rest.of(s),
    ensures
        m@ == let_form(s, forms(items@)),
{
    if items.len() != 3 {
        rest.fail(ErrorKind::ArityError, owned("let requires exactly 2 arguments"), Ghost(s))
    } else {
        proof {
            lemma_views(items@[1]);
        }
        match &items[1] {
            Value::Vector(bindings) => {
                if bindings.len() % 2 != 0 {
                    rest.fail(
                        ErrorKind::ArityError,
                        owned("let bindings must have an even number of elements"),
                        Ghost(s),
                    )
                } else {
                    let inner = enter_frame(rest, Ghost(s));
                    bind_next(
                        inner,
                        crate::value::copy_values(bindings),
                        0,
                        items[2].clone(),
                        Ghost(enter(s)),
                    )
                }
            },
            _ => rest.fail(ErrorKind::TypeError, owned("let bindings must be a vector"), Ghost(s)),
        }
    }
}

proof fn lemma_letrec_fault(bindings: Seq<Form>, n: nat, m: nat)
    requires
        n <= m <= bindings.len(),
        letrec_names(bindings, n) is Err,
    ensures
        letrec_names(bindings, m) == letrec_names(bindings, n),
    decreases m - n,
{
    if n < m {
        lemma_letrec_fault(bindings, n, (m - 1) as nat);
    }
}

/// The names that the bindings of a `letrec` introduce.
fn names_of_letrec(bindings: &Vec<Value>) -> (r: Result<Vec<String>, EvalError>)
    ensures
        match letrec_names(forms(bindings@), bindings@.len()) {
            Ok(names) => r is Ok && texts(r->Ok_0@) == names,
            Err(e) => r is Err && r->Err_0@ == e,
        },
{
    let mut out: Vec<String> = Vec::new();
    let mut i: usize = 0;
    assert(texts(out@) =~= Seq::empty());
    while i < bindings.len()
        invariant
            i <= bindings.len(),
            letrec_names(forms(bindings@), i as nat) == Ok::<Seq<Text>, Fault>(texts(out@)),
        decreases bindings.len() - i,
    {
        proof {
            lemma_views(bindings@[i as int]);
        }
        let found = match &bindings[i] {
            Value::Vector(pair) => {
                if pair.len() != 2 {
                    Err(
                        fault(
                            ErrorKind::TypeError,
                            owned("Each binding must be a vector of [name value]"),
                        ),
                    )
                } else {
                    match &pair[0] {
                        Value::Symbol(name) => Ok(name.clone()),
                        _ => Err(
                            fault(ErrorKind::TypeError, owned("Binding name must be a symbol")),
                        ),
                    }
                }
            },
            _ => Err(fault(ErrorKind::TypeError, owned("Each binding must be a vector"))),
        };
        match found {
            Ok(name) => {
                proof {
                    lemma_texts_push(out@, name);
                }
                out.push(name);
            },
            Err(e) => {
                proof {
                    lemma_letrec_fault(
                        forms(bindings@),
                        (i + 1) as nat,
                        bindings@.len() as nat,
                    );
                }
                return Err(e);
            },
        }
        i += 1;
    }
    Ok(out)
}

/// Goes on with the `letrec` binding at `next`, or with the body after the
/// last.
pub(crate) fn rebind_next(
    rest: Rest,
    names: Vec<String>,
    bindings: Vec<Value>,
    next: usize,
    body: Value,
    Ghost(s): Ghost<State>,
) -> (m: Machine)
    requires
        rest.of(s),
    ensures
        m@ == rebind_from(s, texts(names@), forms(bindings@), next as nat, body@),
{
    if next >= bindings.len() {
        rest.to(Control::Eval(body), Ghost(s))
    } else {
        proof {
            lemma_views(bindings@[next as int]);
        }
        let value = match &bindings[next] {
            Value::Vector(pair) => {
                if pair.len() == 2 {
                    Some(pair[1].clone())
                } else {
                    None
                }
            },
            _ => None,
        };
        match value {
            Some(value) => {
                let frame = Frame::Rebind { names, bindings, next, body };
                rest.push(frame, Ghost(s)).to(Control::Eval(value), Ghost(s.push(frame@)))
            },
            None => rest.to(Control::Eval(body), Ghost(s)),
        }
    }
}

fn run_letrec(rest: Rest, items: Vec<Value>, Ghost(s): Ghost<State>) -> (m: Machine)
    requires
        rest.of(s),
    ensures
        m@ == letrec_form(s, forms(items@)),
{
    if items.len() != 3 {
        rest.fail(ErrorKind::ArityError, owned("letrec requires exactly 2 arguments"), Ghost(s))
    } else {
        proof {
            lemma_views(items@[1]);
        }
        match &items[1] {
            Value::Vector(bindings) => {
                match names_of_letrec(bindings) {
                    Err(e) => rest.to(Control::Raise(e), Ghost(s)),
                    Ok(names) => {
                        let inner = enter_frame(rest, Ghost(s));
                        let Rest { env, stack, depth } = inner;
                        let mut env = env;
                        let mut i: usize = 0;
                        while i < names.len()
                            invariant
                                i <= names.len(),
                                env@ == prebind(enter(s).env, texts(names@), i as nat),
                            decreases names.len() - i,
                        {
                            env.set(names[i].clone(), Value::Uninitialized);
                            i += 1;
                        }
                        let inner = Rest { env, stack, depth };
                        rebind_next(
                            inner,
                            names,
                            crate::value::copy_values(bindings),
                            0,
                            items[2].clone(),
                            Ghost(enter(s).within(inner.env@)),
                        )
                    },
                }
            },
            _ => rest.fail(
                ErrorKind::TypeError,
                owned("letrec bindings must be a vector"),
                Ghost(s),
            ),
        }
    }
}

fn run_quote(rest: Rest, items: Vec<Value>, Ghost(s): Ghost<State>) -> (m: Machine)
    requires
        rest.of(s),
    ensures
        m@ == quote_form(s, forms(items@)),
{
    if items.len() != 2 {
        rest.fail(ErrorKind::ArityError, owned("quote requires exactly 1 argument"), Ghost(s))
    } else {
        rest.give(items[1].clone(), Ghost(s))
    }
}

fn run_quasiquote(rest: Rest, items: Vec<Value>, Ghost(s): Ghost<State>) -> (m: Machine)
    requires
        rest.of(s),
    ensures
        m@ == quasiquote_form(s, forms(items@)),
{
    if items.len() != 2 {
        rest.fail(ErrorKind::ArityError, owned("quasiquote requires exactly 1 argument"), Ghost(s))
    } else {
        rest.to(Control::Quasi(items[1].clone()), Ghost(s))
    }
}

/// The table that maps each parameter to its argument.
fn substitution_table(params: &Vec<String>, args: &Vec<Value>) -> (r: Vec<(String, Value)>)
    requires
        params@.len() == args@.len(),
    ensures
        entries(r@) == substitutions(texts(params@), forms(args@), params@.len()),
{
    let mut out: Vec<(String, Value)> = Vec::new();
    let mut i: usize = 0;
    assert(entries(out@) =~= Seq::empty());
    while i < params.len()
        invariant
            i <= params.len(),
            params@.len() == args@.len(),
            entries(out@) == substitutions(texts(params@), forms(args@), i as nat),
        decreases params.len() - i,
    {
        put_entry(&mut out, params[i].clone(), args[i].clone());
        i += 1;
    }
    out
}

/// `f` with every symbol that `table` names replaced, through lists and
/// vectors.
pub fn substitute_symbols(f: &Value, table: &Vec<(String, Value)>) -> (r: Value)
    ensures
        r@ == substitute(f@, entries(table@)),
    decreases f,
{
    proof {
        lemma_views(*f);
    }
    match f {
        Value::Symbol(name) => {
            let i = find_entry(table, name.as_str());
            if i < table.len() {
                table[i].1.clone()
            } else {
                f.clone()
            }
        },
        Value::List(items) => {
            let v = Value::List(substitute_each(items, table));
            proof {
                lemma_views(v);
                assert(v@->List_0 =~= substitute(f@, entries(table@))->List_0);
            }
            v
        },
        Value::Vector(items) => {
            let v = Value::Vector(substitute_each(items, table));
            proof {
                lemma_views(v);
                assert(v@->Vector_0 =~= substitute(f@, entries(table@))->Vector_0);
            }
            v
        },
        _ => f.clone(),
    }
}

fn substitute_each(items: &Vec<Value>, table: &Vec<(String, Value)>) -> (r: Vec<Value>)
    ensures
        r@.len() == items@.len(),
        forall|j: int| 0 <= j < items@.len() ==> r@[j]@ == substitute(items@[j]@, entries(table@)),
    decreases items,
{
    let mut out: Vec<Value> = Vec::new();
    let mut i: usize = 0;
    while i < items.len()
        invariant
            i <= items.len(),
            out@.len() == i,
            forall|j: int| 0 <= j < i ==> out@[j]@ == substitute(items@[j]@, entries(table@)),
        decreases items.len() - i,
    {
        out.push(substitute_symbols(&items[i], table));
        i += 1;
    }
    out
}

/// The body of a `quasiquote` form with one argument.
fn quasiquoted_body(body: &Value) -> (r: Option<Value>)
    ensures
        crate::value::some_form(r) == quasiquoted(body@),
{
    proof {
        lemma_views(*body);
    }
    match body {
        Value::List(items) => {
            if items.len() == 2 {
                match &items[0] {
                    Value::Symbol(n) => {
                        if n.as_str().eq("quasiquote") {
                            Some(items[1].clone())
                        } else {
                            None
                        }
                    },
                    _ => None,
                }
            } else {
                None
            }
        },
        _ => None,
    }
}

/// One expansion of `form` without evaluating it.
pub(crate) fn expand_form(rest: Rest, form: Value, Ghost(s): Ghost<State>) -> (m: Machine)
    requires
        rest.of(s),
    ensures
        m@ == expand_once(s, form@),
{
    proof {
        lemma_views(form);
    }
    let found = match &form {
        Value::List(items) => {
            if items.len() == 0 {
                None
            } else {
                match &items[0] {
                    Value::Symbol(name) => rest.env.get_with_namespaces(name.as_str()),
                    _ => None,
                }
            }
        },
        _ => None,
    };
    proof {
        if found is Some && found->0 is Function {
            lemma_views(found->0);
            crate::value::lemma_function(found->0->Function_0);
        }
    }
    match (found, &form) {
        (Some(Value::Function(Function::Macro { params, body, env })), Value::List(items)) => {
            let args = copy_from(items, 1);
            if args.len() != params.len() {
                rest.fail(
                    ErrorKind::ArityError,
                    arity_text("Macro", params.len(), args.len()),
                    Ghost(s),
                )
            } else {
                match quasiquoted_body(&body) {
                    Some(template) => {
                        let mut local = Env::with_parent(env);
                        bind_params(&mut local, &params, &args);
                        let Rest { env: saved, stack, depth } = rest;
                        let mut stack = stack;
                        let frame = Frame::Restore { saved, leave: false };
                        proof {
                            lemma_conts_push(stack@, frame);
                        }
                        stack.push(frame);
                        Machine { control: Control::Quasi(template), env: local, stack, depth }
                    },
                    None => {
                        let table = substitution_table(&params, &args);
                        rest.give(substitute_symbols(&body, &table), Ghost(s))
                    },
                }
            }
        },
        _ => rest.give(form, Ghost(s)),
    }
}

/// What `(quote f)` quotes.
fn unquoted_form(form: &Value) -> (r: Value)
    ensures
        r@ == unquoted(form@),
{
    proof {
        lemma_views(*form);
    }
    match form {
        Value::List(items) => {
            if items.len() == 2 {
                match &items[0] {
                    Value::Symbol(n) => {
                        if n.as_str().eq("quote") {
                            items[1].clone()
                        } else {
                            form.clone()
                        }
                    },
                    _ => form.clone(),
                }
            } else {
                form.clone()
            }
        },
        _ => form.clone(),
    }
}

fn run_macroexpand(rest: Rest, items: Vec<Value>, Ghost(s): Ghost<State>) -> (m: Machine)
    requires
        rest.of(s),
    ensures
        m@ == macroexpand_form(s, forms(items@)),
{
    if items.len() != 2 {
        rest.fail(
            ErrorKind::ArityError,
            owned("macroexpand requires exactly 1 argument"),
            Ghost(s),
        )
    } else {
        expand_form(rest, unquoted_form(&items[1]), Ghost(s))
    }
}

fn run_load(rest: Rest, items: Vec<Value>, Ghost(s): Ghost<State>) -> (m: Machine)
    requires
        rest.of(s),
    ensures
        m@ == load_form(s, forms(items@)),
{
    if items.len() != 2 {
        rest.fail(ErrorKind::ArityError, owned("load requires exactly 1 argument"), Ghost(s))
    } else {
        let frame = Frame::LoadPath;
        rest.push(frame, Ghost(s)).to(Control::Eval(items[1].clone()), Ghost(s.push(frame@)))
    }
}

fn run_ns(rest: Rest, items: Vec<Value>, Ghost(s): Ghost<State>) -> (m: Machine)
    requires
        rest.of(s),
    ensures
        m@ == ns_form(s, forms(items@)),
{
    if items.len() != 2 {
        rest.fail(ErrorKind::ArityError, owned("ns requires exactly 1 argument"), Ghost(s))
    } else {
        match &items[1] {
            Value::Symbol(name) => {
                let Rest { env, stack, depth } = rest;
                let mut env = env;
                env.set_namespace(name.clone());
                Machine { control: Control::Return(Value::Symbol(name.clone())), env, stack, depth }
            },
            _ => rest.fail(ErrorKind::TypeError, owned("ns requires a symbol argument"), Ghost(s)),
        }
    }
}

/// The file of a namespace.
pub fn path_of_namespace(namespace: &str) -> (r: String)
    ensures
        r@ == namespace_path(namespace@),
{
    let chars = chars_of(namespace);
    let mut out = owned("std/");
    let mut i: usize = 0;
    let ghost head = out@;
    assert(replaced(chars@, '.', '/').take(0) =~= Seq::empty());
    assert(out@ =~= head + replaced(chars@, '.', '/').take(0));
    while i < chars.len()
        invariant
            i <= chars.len(),
            chars@ == namespace@,
            head == "std/"@,
            out@ == head + replaced(chars@, '.', '/').take(i as int),
        decreases chars.len() - i,
    {
        let c = if chars[i] == '.' {
            '/'
        } else {
            chars[i]
        };
        out.push(c);
        assert(replaced(chars@, '.', '/').take(i + 1) =~= replaced(chars@, '.', '/').take(
            i as int,
        ).push(c));
        assert(out@ =~= head + replaced(chars@, '.', '/').take(i + 1));
        i += 1;
    }
    assert(replaced(chars@, '.', '/').take(chars@.len() as int) =~= replaced(chars@, '.', '/'));
    out.append(".lisp");
    out
}

/// The end of `require`.
fn finish_require(rest: Rest, namespace: String, alias: Option<String>, Ghost(s): Ghost<State>)
    -> (m: Machine)
    requires
        rest.of(s),
    ensures
        m@ == required(
            s,
            namespace@,
            match alias {
                Some(a) => Some(a@),
                None => None,
            },
        ),
{
    match alias {
        Some(a) => {
            let Rest { env, stack, depth } = rest;
            let mut env = env;
            env.add_alias(a, namespace.clone());
            Machine { control: Control::Return(Value::Symbol(namespace)), env, stack, depth }
        },
        None => rest.give(Value::Symbol(namespace), Ghost(s)),
    }
}

/// Loads a namespace unless it is loaded.
fn require_namespace(rest: Rest, namespace: String, alias: Option<String>, Ghost(s): Ghost<State>)
    -> (m: Machine)
    requires
        rest.of(s),
    ensures
        m@ == load_namespace(
            s,
            namespace@,
            match alias {
                Some(a) => Some(a@),
                None => None,
            },
        ),
{
    if rest.env.is_namespace_loaded(namespace.as_str()) {
        finish_require(rest, namespace, alias, Ghost(s))
    } else {
        let path = path_of_namespace(namespace.as_str());
        let frame = Frame::Source {
            purpose: Purpose::Require { namespace, alias, path: path.clone() },
        };
        rest.push(frame, Ghost(s)).to(
            Control::Request(HostRequest::Source { path }),
            Ghost(s.push(frame@)),
        )
    }
}

/// The namespace and the alias that the argument of `require` names, or the
/// message that says why it names none.
fn require_target(arg: &Value) -> (r: Result<(String, Option<String>), String>)
    ensures
        forall|s: State|
            require_form(s, seq![Form::Nil, arg@]) == (match r {
                Ok((namespace, alias)) => load_namespace(
                    s,
                    namespace@,
                    match alias {
                        Some(a) => Some(a@),
                        None => None,
                    },
                ),
                Err(message) => s.fail(ErrorKind::TypeError, message@),
            }),
{
    proof {
        lemma_views(*arg);
    }
    let usage = "require expects 'namespace or [namespace :as alias]";
    match arg {
        Value::Vector(v) => {
            if v.len() == 3 {
                match (&v[0], &v[1], &v[2]) {
                    (Value::Symbol(namespace), Value::Keyword(word), Value::Symbol(alias)) => {
                        if word.as_str().eq("as") {
                            Ok((namespace.clone(), Some(alias.clone())))
                        } else {
                            Err(owned("require vector form expects [namespace :as alias]"))
                        }
                    },
                    _ => Err(owned("require vector form expects [namespace :as alias]")),
                }
            } else {
                Err(owned(usage))
            }
        },
        Value::List(q) => {
            if q.len() == 2 {
                match (&q[0], &q[1]) {
                    (Value::Symbol(word), Value::Symbol(namespace)) => {
                        if word.as_str().eq("quote") {
                            Ok((namespace.clone(), None))
                        } else {
                            Err(owned("require expects a quoted symbol"))
                        }
                    },
                    _ => Err(owned("require expects a quoted symbol")),
                }
            } else {
                Err(owned(usage))
            }
        },
        Value::Symbol(name) => {
            let chars = chars_of(name.as_str());
            if chars.len() > 0 && chars[0] == '\'' {
                let namespace = string_from(&chars, 1, chars.len());
                assert(chars@.subrange(1, chars@.len() as int) =~= chars@.skip(1));
                Ok((namespace, None))
            } else {
                Err(owned(usage))
            }
        },
        _ => Err(owned(usage)),
    }
}

fn run_require(rest: Rest, items: Vec<Value>, Ghost(s): Ghost<State>) -> (m: Machine)
    requires
        rest.of(s),
    ensures
        m@ == require_form(s, forms(items@)),
{
    if items.len() != 2 {
        rest.fail(ErrorKind::ArityError, owned("require requires exactly 1 argument"), Ghost(s))
    } else {
        let target = require_target(&items[1]);
        assert(require_form(s, forms(items@)) == require_form(s, seq![Form::Nil, items@[1]@]));
        match target {
            Ok((namespace, alias)) => require_namespace(rest, namespace, alias, Ghost(s)),
            Err(message) => rest.fail(ErrorKind::TypeError, message, Ghost(s)),
        }
    }
}

/// The natives that a function installed by `require` can see.
fn essential_names() -> (r: Vec<String>)
    ensures
        texts(r@) == essentials(),
{
    let mut out: Vec<String> = Vec::new();
    out.push(owned("+"));
    out.push(owned("-"));
    out.push(owned("*"));
    out.push(owned("/"));
    out.push(owned("="));
    out.push(owned("<"));
    out.push(owned(">"));
    out.push(owned("<="));
    out.push(owned(">="));
    out.push(owned("not="));
    out.push(owned("first"));
    out.push(owned("rest"));
    out.push(owned("cons"));
    out.push(owned("list"));
    out.push(owned("list?"));
    out.push(owned("nil?"));
    out.push(owned("empty?"));
    out.push(owned("if"));
    out.push(owned("do"));
    out.push(owned("and"));
    out.push(owned("or"));
    out.push(owned("not"));
    out.push(owned("true?"));
    out.push(owned("false?"));
    out.push(owned("print"));
    out.push(owned("str"));
    out.push(owned("count"));
    out.push(owned("concat"));
    out.push(owned("vector?"));
    out.push(owned("symbol?"));
    out.push(owned("number?"));
    assert(texts(out@) =~= essentials());
    out
}

/// A root frame with those of the essential natives that `env` binds.
fn select_essentials(env: &Env) -> (r: Env)
    ensures
        r@ == selection(env@, essentials(), essentials().len()),
{
    let wanted = essential_names();
    let mut out = Env::new();
    let mut i: usize = 0;
    while i < wanted.len()
        invariant
            i <= wanted.len(),
            texts(wanted@) == essentials(),
            out@ == selection(env@, essentials(), i as nat),
        decreases wanted.len() - i,
    {
        match env.get(wanted[i].as_str()) {
            Some(v) => {
                out.set(wanted[i].clone(), v);
            },
            None => {},
        }
        i += 1;
    }
    out
}

fn is_constant_value(v: &Value) -> (b: bool)
    ensures
        b == is_constant(v@),
{
    match v {
        Value::Number(_) => true,
        Value::Str(_) => true,
        Value::Bool(_) => true,
        Value::Nil => true,
        _ => false,
    }
}

/// What `require` does with one form of a namespace file.
pub fn install_form(env: &mut Env, form: &Value) -> (r: Result<(), EvalError>)
    ensures
        match install(old(env)@, form@) {
            Ok(after) => r is Ok && final(env)@ == after,
            Err(e) => r is Err && r->Err_0@ == e && final(env)@ == old(env)@,
        },
{
    proof {
        lemma_views(*form);
    }
    let items = match form {
        Value::List(items) => items,
        _ => {
            return Ok(());
        },
    };
    if items.len() == 0 {
        return Ok(());
    }
    let head = match &items[0] {
        Value::Symbol(head) => head,
        _ => {
            return Ok(());
        },
    };
    if head.as_str().eq("defn") || head.as_str().eq("defmacro") {
        let is_macro = head.as_str().eq("defmacro");
        if items.len() != 4 {
            return Err(
                fault(ErrorKind::ArityError, join2(head.as_str(), " requires exactly 3 arguments")),
            );
        }
        match &items[1] {
            Value::Symbol(name) => {
                let what = if is_macro {
                    "Macro"
                } else {
                    "Function"
                };
                match parameter_names(what, &items[2]) {
                    Ok(params) => {
                        let captured = if is_macro {
                            env.clone()
                        } else {
                            select_essentials(env)
                        };
                        let f = make_closure(is_macro, params, items[3].clone(), captured);
                        env.set_namespaced(name.clone(), f);
                        Ok(())
                    },
                    Err(e) => Err(e),
                }
            },
            _ => Err(
                fault(
                    ErrorKind::TypeError,
                    join3("First argument to ", head.as_str(), " must be a symbol"),
                ),
            ),
        }
    } else if head.as_str().eq("def") {
        if items.len() != 3 {
            return Err(fault(ErrorKind::ArityError, owned("def requires exactly 2 arguments")));
        }
        match &items[1] {
            Value::Symbol(name) => {
                if is_constant_value(&items[2]) {
                    env.set_namespaced(name.clone(), items[2].clone());
                }
                Ok(())
            },
            _ => Err(
                fault(ErrorKind::TypeError, owned("First argument to def must be a symbol")),
            ),
        }
    } else {
        Ok(())
    }
}

/// What the forms of a file, answered by the host, are used for.
pub(crate) fn use_source(rest: Rest, purpose: Purpose, v: Value, Ghost(s): Ghost<State>) -> (m: Machine)
    requires
        rest.of(s),
    ensures
        m@ == sourced(s, purpose@, v@),
{
    proof {
        lemma_views(v);
    }
    match purpose {
        Purpose::Load { path } => {
            match v {
                Value::List(items) => {
                    if items.len() == 0 {
                        rest.give(Value::Nil, Ghost(s))
                    } else {
                        let first = items[0].clone();
                        let frame = Frame::Each { each: Each::Load(path), forms: items, next: 1 };
                        rest.push(frame, Ghost(s)).to(Control::Eval(first), Ghost(s.push(frame@)))
                    }
                },
                _ => rest.fail(
                    ErrorKind::IOFailure,
                    join3("No forms were given for '", path.as_str(), "'"),
                    Ghost(s),
                ),
            }
        },
        Purpose::Require { namespace, alias, path } => {
            match v {
                Value::List(items) => {
                    let Rest { env, stack, depth } = rest;
                    let mut env = env;
                    let mut i: usize = 0;
                    let mut failure: Option<EvalError> = None;
                    while i < items.len() && failure.is_none()
                        invariant
                            i <= items.len(),
                            env@ == install_upto(s.env, forms(items@), i as nat).env,
                            match failure {
                                Some(e) => install_upto(s.env, forms(items@), i as nat).fault
                                    == Some(e@),
                                None => install_upto(s.env, forms(items@), i as nat).fault is None,
                            },
                        decreases items.len() - i, failure.is_none() as int,
                    {
                        match install_form(&mut env, &items[i]) {
                            Ok(_) => {},
                            Err(e) => {
                                failure = Some(e);
                            },
                        }
                        i += 1;
                    }
                    proof {
                        lemma_install_fault(s.env, forms(items@), i as nat, items@.len() as nat);
                    }
                    match failure {
                        None => {
                            env.add_loaded_namespace(namespace.clone());
                            let rest = Rest { env, stack, depth };
                            finish_require(rest, namespace, alias, Ghost(s.within(rest.env@)))
                        },
                        Some(e) => {
                            let mut message = owned("Failed to load namespace '");
                            message.append(namespace.as_str());
                            message.append("': Error loading form in '");
                            message.append(path.as_str());
                            message.append("': ");
                            message.append(e.message.as_str());
                            let rest = Rest { env, stack, depth };
                            rest.fail(
                                ErrorKind::NamespaceLoadFailure,
                                message,
                                Ghost(s.within(rest.env@)),
                            )
                        },
                    }
                },
                _ => {
                    let mut message = owned("Failed to load namespace '");
                    message.append(namespace.as_str());
                    message.append("': No forms were given for '");
                    message.append(path.as_str());
                    message.append("'");
                    rest.fail(ErrorKind::NamespaceLoadFailure, message, Ghost(s))
                },
            }
        },
    }
}

proof fn lemma_install_fault(env: Scope, items: Seq<Form>, n: nat, m: nat)
    requires
        n <= m <= items.len(),
        n == m || install_upto(env, items, n).fault is Some,
    ensures
        install_upto(env, items, m) == install_upto(env, items, n),
    decreases m - n,
{
    if n < m {
        lemma_install_fault(env, items, n, (m - 1) as nat);
    }
}

/// The special form that the head of `items` names.
pub(crate) fn special_form(rest: Rest, items: Vec<Value>, Ghost(s): Ghost<State>) -> (m: Machine)
    requires
        rest.of(s),
        items@.len() > 0,
        items@[0]@ is Symbol,
        crate::semantics::is_special(items@[0]@->Symbol_0),
    ensures
        m@ == special(s, items@[0]@->Symbol_0, forms(items@)),
{
    let name = match &items[0] {
        Value::Symbol(name) => name.clone(),
        _ => owned("or"),
    };
    let name = name.as_str();
    if name.eq("def") {
        run_def(rest, items, Ghost(s))
    } else if name.eq("defn") {
        run_defn(rest, items, false, Ghost(s))
    } else if name.eq("defmacro") {
        run_defn(rest, items, true, Ghost(s))
    } else if name.eq("if") {
        run_if(rest, items, Ghost(s))
    } else if name.eq("fn") {
        run_fn(rest, items, Ghost(s))
    } else if name.eq("quote") {
        run_quote(rest, items, Ghost(s))
    } else if name.eq("quasiquote") {
        run_quasiquote(rest, items, Ghost(s))
    } else if name.eq("macroexpand") {
        run_macroexpand(rest, items, Ghost(s))
    } else if name.eq("letrec") {
        run_letrec(rest, items, Ghost(s))
    } else if name.eq("let") {
        run_let(rest, items, Ghost(s))
    } else if name.eq("load") {
        run_load(rest, items, Ghost(s))
    } else if name.eq("do") {
        run_do(rest, items, Ghost(s))
    } else if name.eq("ns") {
        run_ns(rest, items, Ghost(s))
    } else if name.eq("require") {
        run_require(rest, items, Ghost(s))
    } else if name.eq("and") {
        run_logic(rest, items, Each::And, Ghost(s))
    } else {
        run_logic(rest, items, Each::Or, Ghost(s))
    }
}

} // verus!
