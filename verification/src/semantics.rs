//! What a step of the machine is: the meaning of every form.
//!
//! [`step`] takes a state to the next one. It is total: a finished or
//! waiting state steps to itself. Everything here is a specification; the
//! executable machine is proved to follow it.
use vstd::prelude::*;
use crate::builtins::native;
use crate::env::{lookup, names};
use crate::machine::{Ask, Cont, Focus, Gathering, Intent, State, Walk};
use crate::printer::show;
use crate::text::{after_last, decimal, Text};
use crate::value::{truthy, Closure, ErrorKind, Fault, Form, Scope};

verus! {

/// The names that are evaluated by their own rules.
pub open spec fn is_special(name: Text) -> bool {
    name == "def"@ || name == "defn"@ || name == "defmacro"@ || name == "if"@ || name == "fn"@
        || name == "quote"@ || name == "quasiquote"@ || name == "macroexpand"@ || name
        == "letrec"@ || name == "let"@ || name == "load"@ || name == "do"@ || name == "ns"@
        || name == "require"@ || name == "and"@ || name == "or"@
}

/// The most user functions that may be entered and not yet left.
pub open spec fn depth_limit() -> nat {
    1000
}

/// `scope` with the first `n` of `params` bound to the arguments at the
/// same positions, in order.
pub open spec fn bind_upto(scope: Scope, params: Seq<Text>, args: Seq<Form>, n: nat) -> Scope
    decreases n,
{
    if n == 0 || n > params.len() || n > args.len() {
        scope
    } else {
        bind_upto(scope, params, args, (n - 1) as nat).set(params[n - 1], args[n - 1])
    }
}

/// `scope` with every parameter bound to its argument.
pub open spec fn bind_all(scope: Scope, params: Seq<Text>, args: Seq<Form>) -> Scope {
    bind_upto(scope, params, args, params.len())
}

/// The names of the first `n` of `items` where all of them are symbols.
pub open spec fn symbols_upto(items: Seq<Form>, n: nat) -> Option<Seq<Text>>
    decreases n,
{
    if n == 0 || n > items.len() {
        Some(Seq::empty())
    } else {
        match (symbols_upto(items, (n - 1) as nat), items[n - 1]) {
            (Some(before), Form::Symbol(name)) => Some(before.push(name)),
            _ => None,
        }
    }
}

/// `who` expects so many arguments and got so many.
pub open spec fn arity_message(who: Text, expected: nat, got: nat) -> Text {
    who + " expects "@ + decimal(expected) + " arguments, got "@ + decimal(got)
}

/// The part of a name after its last slash: the short name under which a
/// callee can call itself.
pub open spec fn short_name(name: Text) -> Text {
    name.subrange(after_last(name, '/'), name.len() as int)
}

/// The values of `pairs`, in order.
pub open spec fn values<V>(pairs: Seq<(Text, V)>) -> Seq<V> {
    Seq::new(pairs.len(), |i: int| pairs[i].1)
}

/// The pairs of `keys` and `vals` at the same positions.
pub open spec fn zip(keys: Seq<Text>, vals: Seq<Form>) -> Seq<(Text, Form)> {
    Seq::new(
        if keys.len() <= vals.len() {
            keys.len()
        } else {
            vals.len()
        },
        |i: int| (keys[i], vals[i]),
    )
}

/// What is in focus for one of a run of forms.
pub open spec fn item_focus(gather: Gathering, f: Form) -> Focus {
    match gather {
        Gathering::QuasiList | Gathering::QuasiVector => Focus::Quasi(f),
        _ => Focus::Eval(f),
    }
}

/// What becomes of the values of a run of forms.
pub open spec fn gathered(s: State, gather: Gathering, items: Seq<Form>, done: Seq<Form>) -> State {
    match gather {
        Gathering::Vector | Gathering::QuasiVector => s.to(Focus::Return(Form::Vector(done))),
        Gathering::QuasiList => s.to(Focus::Return(Form::List(done))),
        Gathering::Dict(keys) => s.to(Focus::Return(Form::Dict(zip(keys, done)))),
        Gathering::Call => if done.len() == 0 || items.len() == 0 {
            s.to(Focus::Return(Form::List(done)))
        } else {
            s.to(
                Focus::Invoke {
                    func: done[0],
                    args: done.skip(1),
                    name: match items[0] {
                        Form::Symbol(n) => Some(short_name(n)),
                        _ => None,
                    },
                },
            )
        },
    }
}

/// Starts on a run of forms.
pub open spec fn collect(s: State, gather: Gathering, items: Seq<Form>) -> State {
    if items.len() == 0 {
        gathered(s, gather, items, Seq::empty())
    } else {
        s.push(Cont::Collect { gather, forms: items, done: Seq::empty() }).to(
            item_focus(gather, items[0]),
        )
    }
}

/// The parameters that a vector of symbols names, or why it names none.
/// `what` is `Function` or `Macro`.
pub open spec fn parameters(what: Text, spec: Form) -> Result<Seq<Text>, Fault> {
    match spec {
        Form::Vector(items) => match symbols_upto(items, items.len()) {
            Some(params) => Ok(params),
            None => Err(
                Fault {
                    kind: ErrorKind::TypeError,
                    message: what + " parameters must be symbols"@,
                },
            ),
        },
        _ => Err(
            Fault { kind: ErrorKind::TypeError, message: what + " parameters must be a vector"@ },
        ),
    }
}

/// A macro call: the arguments are bound unevaluated over the macro's
/// environment, the body is evaluated there, and what comes back is
/// evaluated where the call stands.
pub open spec fn expand_call(
    s: State,
    params: Seq<Text>,
    body: Form,
    env: Scope,
    args: Seq<Form>,
) -> State {
    if args.len() != params.len() {
        s.fail(ErrorKind::ArityError, arity_message("Macro"@, params.len(), args.len()))
    } else {
        State {
            focus: Focus::Eval(body),
            env: bind_all(env.child(), params, args),
            stack: s.stack.push(Cont::Reeval { saved: s.env }),
            depth: s.depth,
        }
    }
}

/// A list that is no special form: a macro call where its head is a symbol
/// bound to a macro, else the call of what the head evaluates to.
pub open spec fn call(s: State, items: Seq<Form>) -> State
    recommends
        items.len() > 0,
{
    match items[0] {
        Form::Symbol(name) => match s.env.get_with_aliases(name) {
            Some(Form::Function(Closure::Macro { params, body, env })) => expand_call(
                s,
                params,
                *body,
                env,
                items.skip(1),
            ),
            _ => collect(s, Gathering::Call, items),
        },
        _ => collect(s, Gathering::Call, items),
    }
}

/// `scope` with the callee bound to the short name it was called by.
pub open spec fn self_bound(scope: Scope, name: Option<Text>, func: Form) -> Scope {
    match name {
        Some(n) => scope.set(n, func),
        None => scope,
    }
}

/// The application of an evaluated callee to evaluated arguments.
pub open spec fn invoke(s: State, func: Form, args: Seq<Form>, name: Option<Text>) -> State {
    match func {
        Form::Keyword(key) => if args.len() != 1 {
            s.fail(ErrorKind::ArityError, "Keyword as function requires exactly 1 argument"@)
        } else {
            match args[0] {
                Form::Dict(pairs) => match lookup(pairs, key) {
                    Some(v) => s.to(Focus::Return(v)),
                    None => s.to(Focus::Return(Form::Nil)),
                },
                _ => s.fail(ErrorKind::TypeError, "Keyword as function requires a map argument"@),
            }
        },
        Form::Function(Closure::Native(n)) => native(s, n, args),
        Form::Function(Closure::UserDefined { params, body, env }) => if args.len()
            != params.len() {
            s.fail(ErrorKind::ArityError, arity_message("Function"@, params.len(), args.len()))
        } else if s.depth >= depth_limit() {
            s.fail(ErrorKind::RecursionLimit, "Maximum recursion depth 1000 exceeded"@)
        } else {
            State {
                focus: Focus::Eval(*body),
                env: bind_all(self_bound(env.child(), name, func), params, args),
                stack: s.stack.push(Cont::Restore { saved: s.env, leave: true }),
                depth: s.depth + 1,
            }
        },
        Form::Function(Closure::Macro { .. }) => s.fail(
            ErrorKind::TypeError,
            "Macros should be expanded before evaluation"@,
        ),
        _ => s.fail(ErrorKind::TypeError, "Cannot call non-function: "@ + show(func)),
    }
}

/// The form under `quasiquote`: an `unquote` is evaluated, lists and
/// vectors are rebuilt item by item, anything else stands for itself.
pub open spec fn quasi(s: State, f: Form) -> State {
    match f {
        Form::List(items) => if items.len() > 0 && items[0] == Form::Symbol("unquote"@) {
            if items.len() != 2 {
                s.fail(ErrorKind::ArityError, "unquote requires exactly 1 argument"@)
            } else {
                s.to(Focus::Eval(items[1]))
            }
        } else {
            collect(s, Gathering::QuasiList, items)
        },
        Form::Vector(items) => collect(s, Gathering::QuasiVector, items),
        _ => s.to(Focus::Return(f)),
    }
}

/// What the environments that the calls under way came from hold for
/// `name`, nearest first, among the first `n` continuations; a binding that
/// is still a `letrec` placeholder does not count.
pub open spec fn pending(stack: Seq<Cont>, n: nat, name: Text) -> Option<Form>
    decreases n,
{
    if n == 0 || n > stack.len() {
        None
    } else {
        let saved = match stack[n - 1] {
            Cont::Restore { saved, .. } => Some(saved),
            Cont::Reeval { saved } => Some(saved),
            _ => None,
        };
        match saved {
            Some(env) => match env.resolve(name) {
                Some(v) => if v is Uninitialized {
                    pending(stack, (n - 1) as nat, name)
                } else {
                    Some(v)
                },
                None => pending(stack, (n - 1) as nat, name),
            },
            None => pending(stack, (n - 1) as nat, name),
        }
    }
}

/// What a symbol stands for: its binding in the environment. Where that is
/// still a `letrec` placeholder, the symbol is a forward reference to a
/// later binding of the same `letrec`, and stands for what the
/// environments of the calls under way hold for it, if any does.
pub open spec fn meaning(s: State, name: Text) -> Option<Form> {
    match s.env.resolve(name) {
        Some(v) => if v is Uninitialized {
            match pending(s.stack, s.stack.len(), name) {
                Some(later) => Some(later),
                None => Some(v),
            }
        } else {
            Some(v)
        },
        None => None,
    }
}

/// The evaluation of a form.
pub open spec fn eval(s: State, f: Form) -> State {
    match f {
        Form::Uninitialized => s.fail(
            ErrorKind::UninitializedAccess,
            "Cannot evaluate uninitialized value"@,
        ),
        Form::Symbol(name) => match meaning(s, name) {
            Some(v) => s.to(Focus::Return(v)),
            None => s.fail(ErrorKind::UndefinedSymbol, "Undefined symbol: "@ + name),
        },
        Form::Vector(items) => collect(s, Gathering::Vector, items),
        Form::Dict(pairs) => collect(s, Gathering::Dict(names(pairs)), values(pairs)),
        Form::List(items) => if items.len() == 0 {
            s.to(Focus::Return(Form::List(Seq::empty())))
        } else {
            match items[0] {
                Form::Symbol(name) => if is_special(name) {
                    crate::special::special(s, name, items)
                } else {
                    call(s, items)
                },
                _ => call(s, items),
            }
        },
        _ => s.to(Focus::Return(f)),
    }
}

/// What a value does to the continuation `top` that waited for it; `s` is
/// the state with `top` taken off.
pub open spec fn resume(s: State, top: Cont, v: Form) -> State {
    match top {
        Cont::Collect { gather, forms, done } => {
            let done = done.push(v);
            if done.len() < forms.len() {
                s.push(Cont::Collect { gather, forms, done }).to(
                    item_focus(gather, forms[done.len() as int]),
                )
            } else {
                gathered(s, gather, forms, done)
            }
        },
        Cont::Each { each, forms, next } => {
            let stop = match each {
                Walk::And => !truthy(v),
                Walk::Or => truthy(v),
                _ => false,
            };
            if stop || next >= forms.len() {
                s.to(Focus::Return(v))
            } else {
                s.push(Cont::Each { each, forms, next: next + 1 }).to(
                    Focus::Eval(forms[next as int]),
                )
            }
        },
        Cont::Define { name } => s.within(s.env.set_namespaced(name, v)).to(Focus::Return(v)),
        Cont::Branch { then_form, else_form } => if truthy(v) {
            s.to(Focus::Eval(then_form))
        } else {
            s.to(Focus::Eval(else_form))
        },
        Cont::Bind { bindings, next, body } => if next >= bindings.len() {
            s.to(Focus::Return(v))
        } else {
            match bindings[next as int] {
                Form::Symbol(name) => crate::special::bind_from(
                    s.within(s.env.set(name, v)),
                    bindings,
                    next + 2,
                    body,
                ),
                _ => s.to(Focus::Return(v)),
            }
        },
        Cont::Rebind { names, bindings, next, body } => if next >= names.len() {
            s.to(Focus::Return(v))
        } else if s.env.binds(names[next as int]) {
            crate::special::rebind_from(
                s.within(s.env.update(names[next as int], v)),
                names,
                bindings,
                next + 1,
                body,
            )
        } else {
            s.fail(
                ErrorKind::UndefinedSymbol,
                "Variable "@ + names[next as int] + " not found for update"@,
            )
        },
        Cont::Restore { saved, leave } => State {
            focus: Focus::Return(v),
            env: saved,
            stack: s.stack,
            depth: if leave && s.depth > 0 {
                (s.depth - 1) as nat
            } else {
                s.depth
            },
        },
        Cont::Reeval { saved } => s.within(saved).to(Focus::Eval(v)),
        Cont::LoadPath => match v {
            Form::Str(path) => s.push(Cont::Source { purpose: Intent::Load { path } }).to(
                Focus::Request(Ask::Source { path }),
            ),
            _ => s.fail(ErrorKind::TypeError, "load requires a string filename"@),
        },
        Cont::Source { purpose } => crate::special::sourced(s, purpose, v),
        Cont::Fold { op, operands, next } => crate::builtins::folded(s, op, operands, next, v),
        Cont::Discard => s.to(Focus::Return(Form::Nil)),
    }
}

/// What a failure does to the continuation `top` on its way down; `s` is
/// the state with `top` taken off.
pub open spec fn unwind(s: State, top: Cont, e: Fault) -> State {
    match top {
        Cont::Restore { saved, leave } => State {
            focus: Focus::Raise(e),
            env: saved,
            stack: s.stack,
            depth: if leave && s.depth > 0 {
                (s.depth - 1) as nat
            } else {
                s.depth
            },
        },
        Cont::Reeval { saved } => s.within(saved).to(Focus::Raise(e)),
        Cont::Each { each: Walk::Load(path), .. } => s.to(
            Focus::Raise(
                Fault {
                    kind: e.kind,
                    message: "Error evaluating expression in '"@ + path + "': "@ + e.message,
                },
            ),
        ),
        Cont::Source { purpose: Intent::Require { namespace, .. } } => s.to(
            Focus::Raise(
                Fault {
                    kind: ErrorKind::NamespaceLoadFailure,
                    message: "Failed to load namespace '"@ + namespace + "': "@ + e.message,
                },
            ),
        ),
        _ => s.to(Focus::Raise(e)),
    }
}

/// The state without the top of its stack.
pub open spec fn popped(s: State) -> State
    recommends
        s.stack.len() > 0,
{
    State { stack: s.stack.drop_last(), ..s }
}

/// One step of the machine. A finished state and a waiting one step to
/// themselves.
#[verifier::opaque]
pub open spec fn step(s: State) -> State {
    match s.focus {
        Focus::Eval(f) => eval(s, f),
        Focus::Quasi(f) => quasi(s, f),
        Focus::Invoke { func, args, name } => invoke(s, func, args, name),
        Focus::Return(v) => if s.stack.len() == 0 {
            s
        } else {
            resume(popped(s), s.stack.last(), v)
        },
        Focus::Raise(e) => if s.stack.len() == 0 {
            s
        } else {
            unwind(popped(s), s.stack.last(), e)
        },
        Focus::Request(_) => s,
    }
}

/// The state after the host answered the request in focus: a value comes
/// back, or a failure is raised.
pub open spec fn answered(s: State, answer: Result<Form, Fault>) -> State {
    match answer {
        Ok(v) => s.to(Focus::Return(v)),
        Err(e) => s.to(Focus::Raise(e)),
    }
}

/// The state after `n` steps.
pub open spec fn run(s: State, n: nat) -> State
    decreases n,
{
    if n == 0 {
        s
    } else {
        step(run(s, (n - 1) as nat))
    }
}

} // verus!
