//! The machine's moves: evaluation, calls, and the way values and failures
//! travel down the stack.
use vstd::prelude::*;
use crate::builtins::call_native;
use crate::env::find_entry;
use crate::forms::{bind_next, rebind_next, special_form, use_source};
use crate::machine::{
    conts, lemma_conts_pop, lemma_conts_push, Control, Each, Frame, Gather, HostRequest, Machine,
    Purpose, State, MAX_RECURSION_DEPTH,
};
use crate::semantics::{
    answered, arity_message, bind_all, bind_upto, call, collect, eval, expand_call, gathered,
    invoke, is_special, item_focus, meaning, pending, popped, quasi, resume, short_name, step,
    unwind, values, zip,
};
use crate::text::{chars_of, decimal_string, find_after_last, join2, owned, string_from};
use crate::value::{
    entries, forms, lemma_forms_push, lemma_views, result_form, texts, Env, ErrorKind, EvalError,
    Function, Value,
};

verus! {

/// A machine without its focus.
pub struct Rest {
    pub env: Env,
    pub stack: Vec<Frame>,
    pub depth: usize,
}

impl Rest {
    /// Whether this is what `s` holds besides its focus.
    pub open spec fn of(self, s: State) -> bool {
        s.env == self.env@ && s.stack == conts(self.stack@) && s.depth == self.depth
    }

    /// The machine with `control` in focus.
    pub(crate) fn to(self, control: Control, Ghost(s): Ghost<State>) -> (m: Machine)
        requires
            self.of(s),
        ensures
            m@ == s.to(control@),
    {
        Machine { control, env: self.env, stack: self.stack, depth: self.depth }
    }

    /// The machine that returns `v`.
    pub(crate) fn give(self, v: Value, Ghost(s): Ghost<State>) -> (m: Machine)
        requires
            self.of(s),
        ensures
            m@ == s.to(crate::machine::Focus::Return(v@)),
    {
        self.to(Control::Return(v), Ghost(s))
    }

    /// The machine that raises a failure.
    pub(crate) fn fail(self, kind: ErrorKind, message: String, Ghost(s): Ghost<State>) -> (m: Machine)
        requires
            self.of(s),
        ensures
            m@ == s.fail(kind, message@),
    {
        self.to(Control::Raise(EvalError { kind, message }), Ghost(s))
    }

    /// With `frame` on top of the stack.
    pub(crate) fn push(self, frame: Frame, Ghost(s): Ghost<State>) -> (r: Rest)
        requires
            self.of(s),
        ensures
            r.of(s.push(frame@)),
    {
        let mut stack = self.stack;
        proof {
            lemma_conts_push(stack@, frame);
        }
        stack.push(frame);
        Rest { env: self.env, stack, depth: self.depth }
    }

    /// In another environment.
    pub(crate) fn within(self, env: Env, Ghost(s): Ghost<State>) -> (r: Rest)
        requires
            self.of(s),
        ensures
            r.of(s.within(env@)),
    {
        Rest { env, stack: self.stack, depth: self.depth }
    }
}

/// `who` expects so many arguments and got so many.
pub fn arity_text(who: &str, expected: usize, got: usize) -> (r: String)
    ensures
        r@ == arity_message(who@, expected as nat, got as nat),
{
    let mut out = owned(who);
    out.append(" expects ");
    out.append(decimal_string(expected).as_str());
    out.append(" arguments, got ");
    out.append(decimal_string(got).as_str());
    out
}

/// A copy of the items of `v` from `from` on.
pub fn copy_from(v: &Vec<Value>, from: usize) -> (r: Vec<Value>)
    requires
        from <= v@.len(),
    ensures
        forms(r@) == forms(v@).skip(from as int),
{
    let mut out: Vec<Value> = Vec::new();
    let mut i: usize = from;
    while i < v.len()
        invariant
            from <= i <= v.len(),
            out@.len() == i - from,
            forall|j: int| 0 <= j < out@.len() ==> out@[j]@ == v@[from + j]@,
        decreases v.len() - i,
    {
        out.push(v[i].clone());
        i += 1;
    }
    assert(forms(out@) =~= forms(v@).skip(from as int));
    out
}

/// Binds each parameter to the argument at the same position, in order.
pub fn bind_params(env: &mut Env, params: &Vec<String>, args: &Vec<Value>)
    requires
        params@.len() == args@.len(),
    ensures
        final(env)@ == bind_all(old(env)@, texts(params@), forms(args@)),
{
    let mut i: usize = 0;
    while i < params.len()
        invariant
            i <= params.len(),
            params@.len() == args@.len(),
            env@ == bind_upto(old(env)@, texts(params@), forms(args@), i as nat),
        decreases params.len() - i,
    {
        env.set(params[i].clone(), args[i].clone());
        i += 1;
    }
}

/// The part of `name` after its last slash.
pub fn short_name_of(name: &str) -> (r: String)
    ensures
        r@ == short_name(name@),
{
    let chars = chars_of(name);
    let from = find_after_last(&chars, '/');
    proof {
        crate::text::lemma_after_last(chars@, '/');
    }
    string_from(&chars, from, chars.len())
}

/// The keys and the values of `pairs`, each in order.
pub fn unzip(pairs: &Vec<(String, Value)>) -> (r: (Vec<String>, Vec<Value>))
    ensures
        texts(r.0@) == crate::env::names(entries(pairs@)),
        forms(r.1@) == values(entries(pairs@)),
{
    let mut keys: Vec<String> = Vec::new();
    let mut vals: Vec<Value> = Vec::new();
    let mut i: usize = 0;
    while i < pairs.len()
        invariant
            i <= pairs.len(),
            keys@.len() == i,
            vals@.len() == i,
            forall|j: int| 0 <= j < i ==> keys@[j]@ == pairs@[j].0@ && vals@[j]@ == pairs@[j].1@,
        decreases pairs.len() - i,
    {
        keys.push(pairs[i].0.clone());
        vals.push(pairs[i].1.clone());
        i += 1;
    }
    assert(texts(keys@) =~= crate::env::names(entries(pairs@)));
    assert(forms(vals@) =~= values(entries(pairs@)));
    (keys, vals)
}

/// The pairs of `keys` and `vals` at the same positions.
pub fn zip_up(keys: Vec<String>, vals: Vec<Value>) -> (r: Vec<(String, Value)>)
    ensures
        entries(r@) == zip(texts(keys@), forms(vals@)),
{
    let mut out: Vec<(String, Value)> = Vec::new();
    let n = if keys.len() <= vals.len() {
        keys.len()
    } else {
        vals.len()
    };
    let mut i: usize = 0;
    while i < n
        invariant
            i <= n,
            n <= keys@.len(),
            n <= vals@.len(),
            out@.len() == i,
            forall|j: int| 0 <= j < i ==> out@[j].0@ == keys@[j]@ && out@[j].1@ == vals@[j]@,
        decreases n - i,
    {
        out.push((keys[i].clone(), vals[i].clone()));
        i += 1;
    }
    assert(entries(out@) =~= zip(texts(keys@), forms(vals@)));
    out
}

fn is_quasi(gather: &Gather) -> (b: bool)
    ensures
        b == (gather@ is QuasiList || gather@ is QuasiVector),
{
    match gather {
        Gather::QuasiList => true,
        Gather::QuasiVector => true,
        _ => false,
    }
}

/// What is in focus for one of a run of forms.
fn item_control(gather: &Gather, f: Value) -> (c: Control)
    ensures
        c@ == item_focus(gather@, f@),
{
    if is_quasi(gather) {
        Control::Quasi(f)
    } else {
        Control::Eval(f)
    }
}

/// What becomes of the values of a run of forms.
pub(crate) fn gather_up(rest: Rest, gather: Gather, items: Vec<Value>, done: Vec<Value>, Ghost(s): Ghost<
    State,
>) -> (m: Machine)
    requires
        rest.of(s),
    ensures
        m@ == gathered(s, gather@, forms(items@), forms(done@)),
{
    match gather {
        Gather::Vector => {
            let v = Value::Vector(done);
            proof {
                lemma_views(v);
            }
            rest.give(v, Ghost(s))
        },
        Gather::QuasiVector => {
            let v = Value::Vector(done);
            proof {
                lemma_views(v);
            }
            rest.give(v, Ghost(s))
        },
        Gather::QuasiList => {
            let v = Value::List(done);
            proof {
                lemma_views(v);
            }
            rest.give(v, Ghost(s))
        },
        Gather::Dict(keys) => {
            let v = Value::Dict(zip_up(keys, done));
            proof {
                lemma_views(v);
            }
            rest.give(v, Ghost(s))
        },
        Gather::Call => {
            if done.len() == 0 || items.len() == 0 {
                let v = Value::List(done);
                proof {
                    lemma_views(v);
                }
                rest.give(v, Ghost(s))
            } else {
                let name = match &items[0] {
                    Value::Symbol(n) => Some(short_name_of(n.as_str())),
                    _ => None,
                };
                let mut args = done;
                let ghost all = args@;
                let func = args.remove(0);
                assert(forms(args@) =~= forms(all).skip(1));
                rest.to(Control::Invoke { func, args, name }, Ghost(s))
            }
        },
    }
}

/// Starts on a run of forms.
pub(crate) fn collect_items(rest: Rest, gather: Gather, items: Vec<Value>, Ghost(s): Ghost<State>) -> (m:
    Machine)
    requires
        rest.of(s),
    ensures
        m@ == collect(s, gather@, forms(items@)),
{
    if items.len() == 0 {
        let done: Vec<Value> = Vec::new();
        assert(forms(done@) =~= Seq::empty());
        gather_up(rest, gather, items, done, Ghost(s))
    } else {
        let first = items[0].clone();
        let control = item_control(&gather, first);
        let done: Vec<Value> = Vec::new();
        assert(forms(done@) =~= Seq::empty());
        let frame = Frame::Collect { gather, forms: items, done };
        rest.push(frame, Ghost(s)).to(control, Ghost(s.push(frame@)))
    }
}

/// A macro call.
pub(crate) fn expand_macro(
    rest: Rest,
    params: &Vec<String>,
    body: &Value,
    env: &Env,
    items: &Vec<Value>,
    Ghost(s): Ghost<State>,
) -> (m: Machine)
    requires
        rest.of(s),
        items@.len() > 0,
    ensures
        m@ == expand_call(s, texts(params@), body@, env@, forms(items@).skip(1)),
{
    let args = copy_from(items, 1);
    if args.len() != params.len() {
        rest.fail(ErrorKind::ArityError, arity_text("Macro", params.len(), args.len()), Ghost(s))
    } else {
        let mut local = Env::with_parent(env.clone());
        bind_params(&mut local, params, &args);
        let Rest { env: saved, stack, depth } = rest;
        let mut stack = stack;
        let frame = Frame::Reeval { saved };
        proof {
            lemma_conts_push(stack@, frame);
        }
        stack.push(frame);
        Machine { control: Control::Eval(body.clone()), env: local, stack, depth }
    }
}

/// A list that is no special form.
pub(crate) fn call_list(rest: Rest, items: Vec<Value>, Ghost(s): Ghost<State>) -> (m: Machine)
    requires
        rest.of(s),
        items@.len() > 0,
    ensures
        m@ == call(s, forms(items@)),
{
    let found = match &items[0] {
        Value::Symbol(name) => rest.env.get_with_aliases(name.as_str()),
        _ => None,
    };
    proof {
        if found is Some && found->0 is Function {
            lemma_views(found->0);
            crate::value::lemma_function(found->0->Function_0);
        }
    }
    match found {
        Some(Value::Function(Function::Macro { params, body, env })) => expand_macro(
            rest,
            &params,
            &body,
            &env,
            &items,
            Ghost(s),
        ),
        _ => collect_items(rest, Gather::Call, items, Ghost(s)),
    }
}

/// The application of an evaluated callee to evaluated arguments.
pub(crate) fn invoke_function(
    rest: Rest,
    func: Value,
    args: Vec<Value>,
    name: Option<String>,
    Ghost(s): Ghost<State>,
) -> (m: Machine)
    requires
        rest.of(s),
    ensures
        m@ == invoke(
            s,
            func@,
            forms(args@),
            match name {
                Some(n) => Some(n@),
                None => None,
            },
        ),
{
    proof {
        lemma_views(func);
        if func is Function {
            crate::value::lemma_function(func->Function_0);
        }
    }
    match &func {
        Value::Keyword(key) => {
            if args.len() != 1 {
                rest.fail(
                    ErrorKind::ArityError,
                    owned("Keyword as function requires exactly 1 argument"),
                    Ghost(s),
                )
            } else {
                proof {
                    lemma_views(args@[0]);
                }
                match &args[0] {
                    Value::Dict(pairs) => {
                        let i = find_entry(pairs, key.as_str());
                        if i < pairs.len() {
                            rest.give(pairs[i].1.clone(), Ghost(s))
                        } else {
                            rest.give(Value::Nil, Ghost(s))
                        }
                    },
                    _ => rest.fail(
                        ErrorKind::TypeError,
                        owned("Keyword as function requires a map argument"),
                        Ghost(s),
                    ),
                }
            }
        },
        Value::Function(Function::Native(n)) => call_native(rest, n.as_str(), args, Ghost(s)),
        Value::Function(Function::UserDefined { params, body, env }) => {
            if args.len() != params.len() {
                rest.fail(
                    ErrorKind::ArityError,
                    arity_text("Function", params.len(), args.len()),
                    Ghost(s),
                )
            } else if rest.depth >= MAX_RECURSION_DEPTH {
                rest.fail(
                    ErrorKind::RecursionLimit,
                    owned("Maximum recursion depth 1000 exceeded"),
                    Ghost(s),
                )
            } else {
                let mut local = Env::with_parent(env.clone());
                match name {
                    Some(n) => {
                        local.set(n, func.clone());
                    },
                    None => {},
                }
                bind_params(&mut local, params, &args);
                let Rest { env: saved, stack, depth } = rest;
                let mut stack = stack;
                let frame = Frame::Restore { saved, leave: true };
                proof {
                    lemma_conts_push(stack@, frame);
                }
                stack.push(frame);
                Machine {
                    control: Control::Eval((**body).clone()),
                    env: local,
                    stack,
                    depth: depth + 1,
                }
            }
        },
        Value::Function(Function::Macro { .. }) => rest.fail(
            ErrorKind::TypeError,
            owned("Macros should be expanded before evaluation"),
            Ghost(s),
        ),
        _ => {
            let message = join2("Cannot call non-function: ", func.to_text().as_str());
            rest.fail(ErrorKind::TypeError, message, Ghost(s))
        },
    }
}

/// The form under `quasiquote`.
pub(crate) fn quasi_form(rest: Rest, f: Value, Ghost(s): Ghost<State>) -> (m: Machine)
    requires
        rest.of(s),
    ensures
        m@ == quasi(s, f@),
{
    proof {
        lemma_views(f);
    }
    match f {
        Value::List(items) => {
            let unquote = items.len() > 0 && match &items[0] {
                Value::Symbol(n) => n.as_str().eq("unquote"),
                _ => false,
            };
            if unquote {
                if items.len() != 2 {
                    rest.fail(
                        ErrorKind::ArityError,
                        owned("unquote requires exactly 1 argument"),
                        Ghost(s),
                    )
                } else {
                    rest.to(Control::Eval(items[1].clone()), Ghost(s))
                }
            } else {
                collect_items(rest, Gather::QuasiList, items, Ghost(s))
            }
        },
        Value::Vector(items) => collect_items(rest, Gather::QuasiVector, items, Ghost(s)),
        other => rest.give(other, Ghost(s)),
    }
}

/// Whether `name` is evaluated by its own rules.
pub fn is_special_name(name: &str) -> (b: bool)
    ensures
        b == is_special(name@),
{
    name.eq("def") || name.eq("defn") || name.eq("defmacro") || name.eq("if") || name.eq("fn")
        || name.eq("quote") || name.eq("quasiquote") || name.eq("macroexpand") || name.eq(
        "letrec",
    ) || name.eq("let") || name.eq("load") || name.eq("do") || name.eq("ns") || name.eq(
        "require",
    ) || name.eq("and") || name.eq("or")
}

/// What the environments that the calls under way came from hold for
/// `name`, nearest first.
fn pending_value(stack: &Vec<Frame>, name: &str) -> (r: Option<Value>)
    ensures
        crate::value::some_form(r) == pending(conts(stack@), stack@.len(), name@),
{
    let mut n: usize = stack.len();
    while n > 0
        invariant
            n <= stack.len(),
            pending(conts(stack@), n as nat, name@) == pending(
                conts(stack@),
                stack@.len(),
                name@,
            ),
        decreases n,
    {
        let found = match &stack[n - 1] {
            Frame::Restore { saved, .. } => saved.resolve(name),
            Frame::Reeval { saved } => saved.resolve(name),
            _ => None,
        };
        assert(conts(stack@)[n - 1] == stack@[n - 1]@);
        match found {
            Some(Value::Uninitialized) => {},
            Some(v) => {
                return Some(v);
            },
            None => {},
        }
        n -= 1;
    }
    None
}

/// What a symbol stands for.
fn meaning_of(rest: &Rest, name: &str, Ghost(s): Ghost<State>) -> (r: Option<Value>)
    requires
        rest.of(s),
    ensures
        crate::value::some_form(r) == meaning(s, name@),
{
    match rest.env.resolve(name) {
        Some(Value::Uninitialized) => {
            match pending_value(&rest.stack, name) {
                Some(later) => Some(later),
                None => Some(Value::Uninitialized),
            }
        },
        other => other,
    }
}

/// The evaluation of a form.
pub(crate) fn eval_form(rest: Rest, f: Value, Ghost(s): Ghost<State>) -> (m: Machine)
    requires
        rest.of(s),
    ensures
        m@ == eval(s, f@),
{
    proof {
        lemma_views(f);
    }
    match f {
        Value::Uninitialized => rest.fail(
            ErrorKind::UninitializedAccess,
            owned("Cannot evaluate uninitialized value"),
            Ghost(s),
        ),
        Value::Symbol(name) => {
            match meaning_of(&rest, name.as_str(), Ghost(s)) {
                Some(v) => rest.give(v, Ghost(s)),
                None => rest.fail(
                    ErrorKind::UndefinedSymbol,
                    join2("Undefined symbol: ", name.as_str()),
                    Ghost(s),
                ),
            }
        },
        Value::Vector(items) => collect_items(rest, Gather::Vector, items, Ghost(s)),
        Value::Dict(pairs) => {
            let (keys, vals) = unzip(&pairs);
            collect_items(rest, Gather::Dict(keys), vals, Ghost(s))
        },
        Value::List(items) => {
            if items.len() == 0 {
                let v = Value::List(items);
                proof {
                    lemma_views(v);
                    assert(forms(items@) =~= Seq::empty());
                }
                rest.give(v, Ghost(s))
            } else {
                let special = match &items[0] {
                    Value::Symbol(name) => is_special_name(name.as_str()),
                    _ => false,
                };
                if special {
                    special_form(rest, items, Ghost(s))
                } else {
                    call_list(rest, items, Ghost(s))
                }
            }
        },
        other => rest.give(other, Ghost(s)),
    }
}

/// What a value does to the frame that waited for it.
pub(crate) fn resume_frame(rest: Rest, top: Frame, v: Value, Ghost(s): Ghost<State>) -> (m: Machine)
    requires
        rest.of(s),
    ensures
        m@ == resume(s, top@, v@),
{
    match top {
        Frame::Collect { gather, forms: items, done } => {
            let mut done = done;
            proof {
                lemma_forms_push(done@, v);
            }
            done.push(v);
            if done.len() < items.len() {
                let next = items[done.len()].clone();
                let control = item_control(&gather, next);
                let frame = Frame::Collect { gather, forms: items, done };
                rest.push(frame, Ghost(s)).to(control, Ghost(s.push(frame@)))
            } else {
                gather_up(rest, gather, items, done, Ghost(s))
            }
        },
        Frame::Each { each, forms: items, next } => {
            let stop = match &each {
                Each::And => !v.is_truthy(),
                Each::Or => v.is_truthy(),
                _ => false,
            };
            if stop || next >= items.len() {
                rest.give(v, Ghost(s))
            } else {
                let form = items[next].clone();
                let frame = Frame::Each { each, forms: items, next: next + 1 };
                rest.push(frame, Ghost(s)).to(Control::Eval(form), Ghost(s.push(frame@)))
            }
        },
        Frame::Define { name } => {
            let Rest { env, stack, depth } = rest;
            let mut env = env;
            env.set_namespaced(name, v.clone());
            Machine { control: Control::Return(v), env, stack, depth }
        },
        Frame::Branch { then_form, else_form } => {
            if v.is_truthy() {
                rest.to(Control::Eval(then_form), Ghost(s))
            } else {
                rest.to(Control::Eval(else_form), Ghost(s))
            }
        },
        Frame::Bind { bindings, next, body } => {
            if next >= bindings.len() {
                rest.give(v, Ghost(s))
            } else {
                let name = match &bindings[next] {
                    Value::Symbol(name) => Some(name.clone()),
                    _ => None,
                };
                match name {
                    Some(name) => {
                        let Rest { env, stack, depth } = rest;
                        let mut env = env;
                        env.set(name, v);
                        let rest = Rest { env, stack, depth };
                        if next > usize::MAX - 2 {
                            rest.to(Control::Eval(body), Ghost(s.within(rest.env@)))
                        } else {
                            bind_next(rest, bindings, next + 2, body, Ghost(s.within(rest.env@)))
                        }
                    },
                    None => rest.give(v, Ghost(s)),
                }
            }
        },
        Frame::Rebind { names, bindings, next, body } => {
            if next >= names.len() {
                rest.give(v, Ghost(s))
            } else {
                let Rest { env, stack, depth } = rest;
                let mut env = env;
                match env.update(names[next].as_str(), v) {
                    Ok(_) => {
                        let rest = Rest { env, stack, depth };
                        rebind_next(
                            rest,
                            names,
                            bindings,
                            next + 1,
                            body,
                            Ghost(s.within(rest.env@)),
                        )
                    },
                    Err(e) => Machine { control: Control::Raise(e), env, stack, depth },
                }
            }
        },
        Frame::Restore { saved, leave } => {
            let depth = if leave && rest.depth > 0 {
                rest.depth - 1
            } else {
                rest.depth
            };
            Machine { control: Control::Return(v), env: saved, stack: rest.stack, depth }
        },
        Frame::Reeval { saved } => Machine {
            control: Control::Eval(v),
            env: saved,
            stack: rest.stack,
            depth: rest.depth,
        },
        Frame::LoadPath => {
            match v {
                Value::Str(path) => {
                    let frame = Frame::Source { purpose: Purpose::Load { path: path.clone() } };
                    rest.push(frame, Ghost(s)).to(
                        Control::Request(HostRequest::Source { path }),
                        Ghost(s.push(frame@)),
                    )
                },
                _ => rest.fail(
                    ErrorKind::TypeError,
                    owned("load requires a string filename"),
                    Ghost(s),
                ),
            }
        },
        Frame::Source { purpose } => use_source(rest, purpose, v, Ghost(s)),
        Frame::Fold { op, operands, next } => crate::builtins::fold_on(
            rest,
            op,
            operands,
            next,
            v,
            Ghost(s),
        ),
        Frame::Discard => rest.give(Value::Nil, Ghost(s)),
    }
}

/// What a failure does to the frame it passes.
pub(crate) fn unwind_frame(rest: Rest, top: Frame, e: EvalError, Ghost(s): Ghost<State>) -> (m: Machine)
    requires
        rest.of(s),
    ensures
        m@ == unwind(s, top@, e@),
{
    match top {
        Frame::Restore { saved, leave } => {
            let depth = if leave && rest.depth > 0 {
                rest.depth - 1
            } else {
                rest.depth
            };
            Machine { control: Control::Raise(e), env: saved, stack: rest.stack, depth }
        },
        Frame::Reeval { saved } => Machine {
            control: Control::Raise(e),
            env: saved,
            stack: rest.stack,
            depth: rest.depth,
        },
        Frame::Each { each: Each::Load(path), .. } => {
            let mut message = owned("Error evaluating expression in '");
            message.append(path.as_str());
            message.append("': ");
            message.append(e.message.as_str());
            rest.fail(e.kind, message, Ghost(s))
        },
        Frame::Source { purpose: Purpose::Require { namespace, .. } } => {
            let mut message = owned("Failed to load namespace '");
            message.append(namespace.as_str());
            message.append("': ");
            message.append(e.message.as_str());
            rest.fail(ErrorKind::NamespaceLoadFailure, message, Ghost(s))
        },
        _ => rest.to(Control::Raise(e), Ghost(s)),
    }
}

impl Machine {
    /// The machine that starts the evaluation of `form` in `env`.
    pub fn start(form: Value, env: Env) -> (m: Machine)
        ensures
            m@ == State::start(form@, env@),
    {
        let m = Machine { control: Control::Eval(form), env, stack: Vec::new(), depth: 0 };
        assert(conts(m.stack@) =~= Seq::empty());
        m
    }

    /// Whether evaluation has come to its result.
    pub fn is_finished(&self) -> (b: bool)
        ensures
            b == self@.finished(),
    {
        self.stack.len() == 0 && match &self.control {
            Control::Return(_) => true,
            Control::Raise(_) => true,
            _ => false,
        }
    }

    /// The request that the machine waits on, if it waits.
    pub fn request(&self) -> (r: Option<&HostRequest>)
        ensures
            match r {
                Some(req) => self@.focus == crate::machine::Focus::Request(req@),
                None => !self@.waiting(),
            },
    {
        match &self.control {
            Control::Request(req) => Some(req),
            _ => None,
        }
    }

    /// Takes one step. A finished machine and a waiting one stay as they
    /// are.
    pub fn step(self) -> (m: Machine)
        ensures
            m@ == step(self@),
    {
        let ghost s = self@;
        proof {
            reveal(step);
        }
        let Machine { control, env, stack, depth } = self;
        let mut stack = stack;
        match control {
            Control::Eval(f) => eval_form(Rest { env, stack, depth }, f, Ghost(s)),
            Control::Quasi(f) => quasi_form(Rest { env, stack, depth }, f, Ghost(s)),
            Control::Invoke { func, args, name } => invoke_function(
                Rest { env, stack, depth },
                func,
                args,
                name,
                Ghost(s),
            ),
            Control::Return(v) => {
                proof {
                    if stack@.len() > 0 {
                        lemma_conts_pop(stack@);
                    }
                }
                match stack.pop() {
                    Some(top) => resume_frame(Rest { env, stack, depth }, top, v, Ghost(popped(s))),
                    None => Machine { control: Control::Return(v), env, stack, depth },
                }
            },
            Control::Raise(e) => {
                proof {
                    if stack@.len() > 0 {
                        lemma_conts_pop(stack@);
                    }
                }
                match stack.pop() {
                    Some(top) => unwind_frame(Rest { env, stack, depth }, top, e, Ghost(popped(s))),
                    None => Machine { control: Control::Raise(e), env, stack, depth },
                }
            },
            Control::Request(r) => Machine { control: Control::Request(r), env, stack, depth },
        }
    }

    /// Goes on with the host's answer to the request in focus: the value
    /// comes back, or the failure is raised.
    pub fn answer(self, answer: Result<Value, EvalError>) -> (m: Machine)
        ensures
            m@ == answered(self@, result_form(answer)),
    {
        let Machine { control, env, stack, depth } = self;
        match answer {
            Ok(v) => Machine { control: Control::Return(v), env, stack, depth },
            Err(e) => Machine { control: Control::Raise(e), env, stack, depth },
        }
    }

    /// The result of a finished evaluation, and the environment it left.
    pub fn finish(self) -> (r: (Result<Value, EvalError>, Env))
        requires
            self@.finished(),
        ensures
            result_form(r.0) == self@.outcome(),
            r.1@ == self@.env,
    {
        let Machine { control, env, stack, depth } = self;
        match control {
            Control::Return(v) => (Ok(v), env),
            Control::Raise(e) => (Err(e), env),
            _ => (Ok(Value::Nil), env),
        }
    }
}

} // verus!
