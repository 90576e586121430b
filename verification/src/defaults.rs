//! The root environment: every native procedure under its name, and the
//! macros `when` and `unless`.
use vstd::prelude::*;
use crate::text::{owned, Text};
use crate::value::{
    forms, lemma_function, lemma_views, texts, Closure, Env, Form, Function, Scope, Value,
};

verus! {

/// The natives that the root environment binds before `when` and `unless`,
/// in the order in which it binds them.
pub open spec fn early_natives() -> Seq<Text> {
    seq![
        "+"@,
        "-"@,
        "*"@,
        "/"@,
        "%"@,
        "="@,
        "not="@,
        "print"@,
        "<"@,
        ">"@,
        "cons"@,
        "first"@,
        "rest"@,
        "not"@,
        ">="@,
        "<="@,
        "list"@,
        "now"@,
        "get"@,
        "assoc"@,
        "contains?"@,
        "str-length"@,
        "str"@,
        "now-ms"@,
        "sleep-ms"@,
        "test-assert-eq"@,
        "get-pass-count"@,
        "get-fail-count"@,
        "reset-test-counts"@,
        "run-tests"@,
        "read-file"@,
        "write-file"@,
        "reader"@,
        "writer"@,
        "input-stream"@,
        "output-stream"@,
        "slurp"@,
        "spit"@,
        "copy"@,
        "file-exists?"@,
        "directory?"@,
        "file-size"@,
        "copy-file"@,
        "move-file"@,
        "delete-file"@,
        "list-dir"@,
        "create-dir"@,
        "delete-dir"@,
        "read-line"@,
        "println"@,
        "printf"@,
        "inc"@,
        "dec"@,
        "abs"@,
        "identity"@,
        "nil?"@,
        "zero?"@,
        "pos?"@,
        "neg?"@,
        "even?"@,
        "odd?"@,
        "negative?"@,
        "min"@,
        "max"@,
        "true?"@,
        "false?"@,
        "some?"@,
        "constantly"@,
        "time"@,
    ]
}

/// The natives that the root environment binds after `when` and `unless`.
pub open spec fn late_natives() -> Seq<Text> {
    seq![
        "make-timer"@,
        "square"@,
        "cube"@,
        "apply"@,
        "concat"@,
        "string?"@,
        "number?"@,
        "vector?"@,
        "list?"@,
        "map?"@,
        "empty?"@,
    ]
}

/// `scope` with the first `n` of `names` bound, each to the native
/// procedure of that name.
pub open spec fn with_natives(scope: Scope, names: Seq<Text>, n: nat) -> Scope
    decreases n,
{
    if n == 0 || n > names.len() {
        scope
    } else {
        with_natives(scope, names, (n - 1) as nat).set(
            names[n - 1],
            Form::Function(Closure::Native(names[n - 1])),
        )
    }
}

/// The macro `when` over `env`: `(when c b)` is `(if c b nil)`. Negated
/// it is `unless`: `(unless c b)` is `(if c nil b)`.
pub open spec fn conditional(negated: bool, env: Scope) -> Form {
    Form::Function(
        Closure::Macro {
            params: seq!["condition"@, "body"@],
            body: Box::new(
                Form::List(
                    if negated {
                        seq![
                            Form::Symbol("if"@),
                            Form::Symbol("condition"@),
                            Form::Nil,
                            Form::Symbol("body"@),
                        ]
                    } else {
                        seq![
                            Form::Symbol("if"@),
                            Form::Symbol("condition"@),
                            Form::Symbol("body"@),
                            Form::Nil,
                        ]
                    },
                ),
            ),
            env,
        },
    )
}

/// The root environment. Each macro holds a snapshot of the environment as
/// it was when the macro was bound.
pub open spec fn default_scope() -> Scope {
    let base = with_natives(Scope::root(), early_natives(), early_natives().len());
    let first = base.set("when"@, conditional(false, base));
    let second = first.set("unless"@, conditional(true, first));
    with_natives(second, late_natives(), late_natives().len())
}

fn early_names() -> (out: Vec<String>)
    ensures
        texts(out@) == early_natives(),
{
    let mut out: Vec<String> = Vec::new();
    out.push(owned("+"));
    out.push(owned("-"));
    out.push(owned("*"));
    out.push(owned("/"));
    out.push(owned("%"));
    out.push(owned("="));
    out.push(owned("not="));
    out.push(owned("print"));
    out.push(owned("<"));
    out.push(owned(">"));
    out.push(owned("cons"));
    out.push(owned("first"));
    out.push(owned("rest"));
    out.push(owned("not"));
    out.push(owned(">="));
    out.push(owned("<="));
    out.push(owned("list"));
    out.push(owned("now"));
    out.push(owned("get"));
    out.push(owned("assoc"));
    out.push(owned("contains?"));
    out.push(owned("str-length"));
    out.push(owned("str"));
    out.push(owned("now-ms"));
    out.push(owned("sleep-ms"));
    out.push(owned("test-assert-eq"));
    out.push(owned("get-pass-count"));
    out.push(owned("get-fail-count"));
    out.push(owned("reset-test-counts"));
    out.push(owned("run-tests"));
    out.push(owned("read-file"));
    out.push(owned("write-file"));
    out.push(owned("reader"));
    out.push(owned("writer"));
    out.push(owned("input-stream"));
    out.push(owned("output-stream"));
    out.push(owned("slurp"));
    out.push(owned("spit"));
    out.push(owned("copy"));
    out.push(owned("file-exists?"));
    out.push(owned("directory?"));
    out.push(owned("file-size"));
    out.push(owned("copy-file"));
    out.push(owned("move-file"));
    out.push(owned("delete-file"));
    out.push(owned("list-dir"));
    out.push(owned("create-dir"));
    out.push(owned("delete-dir"));
    out.push(owned("read-line"));
    out.push(owned("println"));
    out.push(owned("printf"));
    out.push(owned("inc"));
    out.push(owned("dec"));
    out.push(owned("abs"));
    out.push(owned("identity"));
    out.push(owned("nil?"));
    out.push(owned("zero?"));
    out.push(owned("pos?"));
    out.push(owned("neg?"));
    out.push(owned("even?"));
    out.push(owned("odd?"));
    out.push(owned("negative?"));
    out.push(owned("min"));
    out.push(owned("max"));
    out.push(owned("true?"));
    out.push(owned("false?"));
    out.push(owned("some?"));
    out.push(owned("constantly"));
    out.push(owned("time"));
    assert(texts(out@) =~= early_natives());
    out
}

fn late_names() -> (out: Vec<String>)
    ensures
        texts(out@) == late_natives(),
{
    let mut out: Vec<String> = Vec::new();
    out.push(owned("make-timer"));
    out.push(owned("square"));
    out.push(owned("cube"));
    out.push(owned("apply"));
    out.push(owned("concat"));
    out.push(owned("string?"));
    out.push(owned("number?"));
    out.push(owned("vector?"));
    out.push(owned("list?"));
    out.push(owned("map?"));
    out.push(owned("empty?"));
    assert(texts(out@) =~= late_natives());
    out
}

fn bind_natives(env: &mut Env, names: &Vec<String>)
    ensures
        final(env)@ == with_natives(old(env)@, texts(names@), names@.len()),
{
    let mut i: usize = 0;
    while i < names.len()
        invariant
            i <= names.len(),
            env@ == with_natives(old(env)@, texts(names@), i as nat),
        decreases names.len() - i,
    {
        let f = Function::Native(names[i].clone());
        proof {
            lemma_function(f);
        }
        env.set(names[i].clone(), Value::Function(f));
        i += 1;
    }
}

fn conditional_macro(negated: bool, env: Env) -> (v: Value)
    ensures
        v@ == conditional(negated, env@),
{
    let mut params: Vec<String> = Vec::new();
    params.push(owned("condition"));
    params.push(owned("body"));
    let mut items: Vec<Value> = Vec::new();
    items.push(Value::Symbol(owned("if")));
    items.push(Value::Symbol(owned("condition")));
    if negated {
        items.push(Value::Nil);
        items.push(Value::Symbol(owned("body")));
    } else {
        items.push(Value::Symbol(owned("body")));
        items.push(Value::Nil);
    }
    let body = Value::List(items);
    let f = Function::Macro { params, body: Box::new(body), env };
    proof {
        lemma_views(body);
        lemma_function(f);
        assert(texts(params@) =~= seq!["condition"@, "body"@]);
        if negated {
            assert(forms(items@) =~= seq![
                Form::Symbol("if"@),
                Form::Symbol("condition"@),
                Form::Nil,
                Form::Symbol("body"@),
            ]);
        } else {
            assert(forms(items@) =~= seq![
                Form::Symbol("if"@),
                Form::Symbol("condition"@),
                Form::Symbol("body"@),
                Form::Nil,
            ]);
        }
    }
    Value::Function(f)
}

/// The root environment: every native procedure bound to its name, and the
/// macros `when` and `unless`.
pub fn create_default_env() -> (env: Env)
    ensures
        env@ == default_scope(),
{
    let mut env = Env::new();
    bind_natives(&mut env, &early_names());
    let when = conditional_macro(false, env.clone());
    env.set(owned("when"), when);
    let unless = conditional_macro(true, env.clone());
    env.set(owned("unless"), unless);
    bind_natives(&mut env, &late_names());
    env
}

} // verus!
