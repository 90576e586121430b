//! What holds of every evaluation.
use vstd::prelude::*;
use crate::env::{lookup, names};
use crate::eval::{evaluates, proper, replay, unfinished, verdict, Event, MAX_MOVES};
use crate::machine::{Cont, Focus, Gathering, State};
use crate::semantics::{
    collect, depth_limit, eval, popped, resume, run, step, values, zip,
};
use crate::text::{first_index, Text};
use crate::value::{Closure, ErrorKind, Fault, Form, Scope};

verus! {

/// Whether none of the first `n` states of a run waits for the host.
pub open spec fn quiet(s: State, n: nat) -> bool {
    forall|j: nat| j < n ==> !(#[trigger] run(s, j)).waiting()
}

/// Running `a` steps and then `b` is running `a + b`.
pub proof fn lemma_run_add(s: State, a: nat, b: nat)
    ensures
        run(s, a + b) == run(run(s, a), b),
    decreases b,
{
    if b > 0 {
        lemma_run_add(s, a, (b - 1) as nat);
        assert(a + b - 1 == a + (b - 1));
    }
}

/// A finished state stays as it is.
pub proof fn lemma_finished_stays(s: State, n: nat)
    requires
        s.finished(),
    ensures
        run(s, n) == s,
    decreases n,
{
    reveal(step);
    if n > 0 {
        lemma_finished_stays(s, (n - 1) as nat);
    }
}

/// Two quiet runs, one after the other, are a quiet run.
pub proof fn lemma_quiet_add(s: State, a: nat, b: nat)
    requires
        quiet(s, a),
        quiet(run(s, a), b),
    ensures
        quiet(s, a + b),
{
    assert forall|j: nat| j < a + b implies !(#[trigger] run(s, j)).waiting() by {
        if j >= a {
            lemma_run_add(s, a, (j - a) as nat);
            assert(!run(run(s, a), (j - a) as nat).waiting());
        }
    }
}

/// While a run is quiet, the events that are due are its steps.
proof fn lemma_steps_only(s: State, n: nat, events: Seq<Event>, k: nat)
    requires
        quiet(s, n),
        proper(s, events),
        k <= events.len(),
        k <= n,
    ensures
        replay(s, events.take(k as int)) == run(s, k),
    decreases k,
{
    if k > 0 {
        lemma_steps_only(s, n, events, (k - 1) as nat);
        let before = events.take(k - 1);
        assert(events.take(k as int).drop_last() =~= before);
        assert(events.take(k as int).last() == events[k - 1]);
        assert(!run(s, (k - 1) as nat).waiting());
    }
}

/// Once a run is finished, the events that are due change nothing.
proof fn lemma_after_the_end(s: State, n: nat, events: Seq<Event>, k: nat)
    requires
        quiet(s, n),
        run(s, n).finished(),
        proper(s, events),
        n <= k <= events.len(),
    ensures
        replay(s, events.take(k as int)) == run(s, n),
    decreases k,
{
    if k == n {
        lemma_steps_only(s, n, events, k);
    } else {
        lemma_after_the_end(s, n, events, (k - 1) as nat);
        let before = events.take(k - 1);
        assert(events.take(k as int).drop_last() =~= before);
        assert(events.take(k as int).last() == events[k - 1]);
        lemma_finished_stays(run(s, n), 1);
        assert(run(run(s, n), 1) == step(run(run(s, n), 0)));
    }
}

/// An evaluation that needs nothing from the host has one result.
///
/// Where the machine started in `s` is finished after `n` steps and never
/// waits on the way, every evaluation from `s` gives the outcome and the
/// environment of that state; unless `n` moves are more than an evaluation
/// makes, when it may fail to finish.
pub proof fn law_host_free(s: State, n: nat, r: Result<Form, Fault>, env: Scope)
    requires
        run(s, n).finished(),
        quiet(s, n),
        evaluates(s, r, env),
    ensures
        (r == run(s, n).outcome() && env == run(s, n).env) || (n > MAX_MOVES && r == Err::<
            Form,
            Fault,
        >(unfinished())),
{
    let events = choose|events: Seq<Event>|
        {
            let t = #[trigger] replay(s, events);
            proper(s, events) && env == t.env && verdict(t, events.len(), r)
        };
    assert(events.take(events.len() as int) =~= events);
    if events.len() <= n {
        lemma_steps_only(s, n, events, events.len());
        if run(s, events.len()).finished() {
            lemma_finished_stays(run(s, events.len()), (n - events.len()) as nat);
            lemma_run_add(s, events.len(), (n - events.len()) as nat);
        }
    } else {
        lemma_after_the_end(s, n, events, events.len());
    }
}

/// `(quote x)` evaluates to `x`, whatever `x` is, and leaves the
/// environment as it was.
pub proof fn law_quote(x: Form, env: Scope, r: Result<Form, Fault>, after: Scope)
    requires
        evaluates(State::start(Form::List(seq![Form::Symbol("quote"@), x]), env), r, after),
    ensures
        r == Ok::<Form, Fault>(x),
        after == env,
{
    let s = State::start(Form::List(seq![Form::Symbol("quote"@), x]), env);
    let items = seq![Form::Symbol("quote"@), x];
    reveal(step);
    reveal_strlit("quote");
    reveal_strlit("def");
    reveal_strlit("defn");
    reveal_strlit("defmacro");
    reveal_strlit("if");
    reveal_strlit("fn");
    assert("quote"@.len() == 5);
    assert("quote"@ != "def"@ && "quote"@ != "defn"@ && "quote"@ != "defmacro"@ && "quote"@
        != "if"@ && "quote"@ != "fn"@);
    assert(crate::special::special(s, "quote"@, items) == crate::special::quote_form(s, items));
    assert(crate::semantics::is_special("quote"@));
    assert(run(s, 1) == step(run(s, 0)));
    assert(run(s, 0) == s);
    assert(step(s) == eval(s, Form::List(items)));
    assert(run(s, 1) == s.to(Focus::Return(x)));
    assert(quiet(s, 1)) by {
        assert forall|j: nat| j < 1 implies !(#[trigger] run(s, j)).waiting() by {
            assert(run(s, 0) == s);
        }
    }
    law_host_free(s, 1, r, after);
}

/// A fresh root environment binds no name.
pub proof fn law_fresh_env_binds_nothing(name: Text)
    ensures
        Scope::root().resolve(name) is None,
{
    let root = Scope::root();
    assert(forall|n: Text| lookup(root.data, n) is None);
    assert(forall|n: Text| root.get(n) is None);
    assert(lookup(root.namespace_aliases, name.subrange(0, first_index(name, '/'))) is None);
}

/// A symbol that the environment does not bind evaluates to the failure
/// `UndefinedSymbol`, which names it.
pub proof fn law_undefined_symbol(name: Text, env: Scope, r: Result<Form, Fault>, after: Scope)
    requires
        env.resolve(name) is None,
        evaluates(State::start(Form::Symbol(name), env), r, after),
    ensures
        r == Err::<Form, Fault>(
            Fault { kind: ErrorKind::UndefinedSymbol, message: "Undefined symbol: "@ + name },
        ),
        after == env,
{
    let s = State::start(Form::Symbol(name), env);
    reveal(step);
    assert(run(s, 1) == step(run(s, 0)));
    assert(quiet(s, 1)) by {
        assert forall|j: nat| j < 1 implies !(#[trigger] run(s, j)).waiting() by {
            assert(run(s, 0) == s);
        }
    }
    law_host_free(s, 1, r, after);
}

/// The forms that evaluate to themselves: every atom but a symbol and the
/// `letrec` placeholder, a vector of such forms, and a map whose values
/// are such forms.
pub open spec fn self_evaluating(f: Form) -> bool
    decreases f,
{
    match f {
        Form::Symbol(_) => false,
        Form::List(_) => false,
        Form::Uninitialized => false,
        Form::Vector(items) => forall|i: int|
            0 <= i < items.len() ==> self_evaluating(#[trigger] items[i]),
        Form::Dict(pairs) => forall|i: int|
            0 <= i < pairs.len() ==> self_evaluating((#[trigger] pairs[i]).1),
        _ => true,
    }
}

/// The forms whose values a vector or a map gathers.
pub open spec fn parts(f: Form) -> Seq<Form> {
    match f {
        Form::Vector(items) => items,
        Form::Dict(pairs) => values(pairs),
        _ => Seq::empty(),
    }
}

/// How a vector or a map gathers the values of its parts.
pub open spec fn gathering(f: Form) -> Gathering {
    match f {
        Form::Dict(pairs) => Gathering::Dict(names(pairs)),
        _ => Gathering::Vector,
    }
}

/// The state in which the parts of `f` before `k` have evaluated to
/// themselves and part `k` is in focus.
pub open spec fn midway(s: State, f: Form, k: int) -> State {
    s.push(
        Cont::Collect { gather: gathering(f), forms: parts(f), done: parts(f).take(k) },
    ).to(Focus::Eval(parts(f)[k]))
}

/// The steps that a self-evaluating form takes: one for an atom or an
/// empty vector or map; for any other vector or map one to start on its
/// parts and, for each part, the steps of the part and one to take its
/// value.
pub open spec fn effort(f: Form) -> nat
    decreases f, 0nat,
{
    match f {
        Form::Vector(items) => 1 + items_effort(items, items.len()),
        Form::Dict(pairs) => 1 + values_effort(pairs, pairs.len()),
        _ => 1,
    }
}

/// The steps that the first `n` of `items` take, one more for each.
pub open spec fn items_effort(items: Seq<Form>, n: nat) -> nat
    decreases items, n,
{
    if n == 0 || n > items.len() {
        0
    } else {
        items_effort(items, (n - 1) as nat) + effort(items[n - 1]) + 1
    }
}

/// The steps that the values of the first `n` of `pairs` take, one more
/// for each.
pub open spec fn values_effort(pairs: Seq<(Text, Form)>, n: nat) -> nat
    decreases pairs, n,
{
    if n == 0 || n > pairs.len() {
        0
    } else {
        values_effort(pairs, (n - 1) as nat) + effort(pairs[n - 1].1) + 1
    }
}

/// The steps that the first `k` parts of a vector or map take.
pub open spec fn parts_effort(f: Form, k: nat) -> nat {
    match f {
        Form::Vector(items) => items_effort(items, k),
        Form::Dict(pairs) => values_effort(pairs, k),
        _ => 0,
    }
}

/// A self-evaluating form in focus comes back as it is, in a quiet run
/// that leaves the environment, the stack and the depth as they were.
pub proof fn lemma_self_evaluating(s: State, f: Form)
    requires
        self_evaluating(f),
        s.focus == Focus::Eval(f),
    ensures
        run(s, effort(f)) == s.to(Focus::Return(f)),
        quiet(s, effort(f)),
    decreases f, parts(f).len() + 2,
{
    reveal(step);
    assert(run(s, 1) == step(run(s, 0)));
    assert(run(s, 0) == s);
    if (f is Vector || f is Dict) && parts(f).len() > 0 {
        assert(parts(f).take(0) =~= Seq::empty());
        assert(run(s, 1) == midway(s, f, 0));
        lemma_parts(s, f, 0);
        let m = (parts_effort(f, parts(f).len()) - parts_effort(f, 0)) as nat;
        lemma_run_add(s, 1, m);
        assert(quiet(s, 1));
        lemma_quiet_add(s, 1, m);
        assert(effort(f) == 1 + m);
    } else {
        if f is Dict {
            assert(zip(names(f->Dict_0), Seq::<Form>::empty()) =~= f->Dict_0);
        }
        if f is Vector {
            assert(parts(f) =~= Seq::empty());
        }
        assert(quiet(s, 1));
        assert(effort(f) == 1);
    }
}

/// The effort grows with the parts.
proof fn lemma_parts_effort_grows(f: Form, k: nat, m: nat)
    requires
        k <= m <= parts(f).len(),
    ensures
        parts_effort(f, k) <= parts_effort(f, m),
    decreases m - k,
{
    if k < m {
        lemma_parts_effort_grows(f, k, (m - 1) as nat);
    }
}

/// From part `k` on, the parts of a self-evaluating vector or map come
/// back as they are, and the whole is gathered as it was.
pub proof fn lemma_parts(s: State, f: Form, k: int)
    requires
        self_evaluating(f),
        f is Vector || f is Dict,
        0 <= k < parts(f).len(),
    ensures
        parts_effort(f, k as nat) <= parts_effort(f, parts(f).len()),
        run(
            midway(s, f, k),
            (parts_effort(f, parts(f).len()) - parts_effort(f, k as nat)) as nat,
        ) == s.to(Focus::Return(f)),
        quiet(
            midway(s, f, k),
            (parts_effort(f, parts(f).len()) - parts_effort(f, k as nat)) as nat,
        ),
    decreases f, parts(f).len() - k,
{
    reveal(step);
    lemma_parts_effort_grows(f, k as nat, parts(f).len());
    lemma_parts_effort_grows(f, (k + 1) as nat, parts(f).len());
    let here = midway(s, f, k);
    let part = parts(f)[k];
    let a = effort(part);
    match f {
        Form::Vector(items) => {
            assert(part == items[k]);
            lemma_self_evaluating(here, items[k]);
        },
        Form::Dict(pairs) => {
            assert(part == pairs[k].1);
            lemma_self_evaluating(here, pairs[k].1);
        },
        _ => {},
    }
    assert(parts_effort(f, (k + 1) as nat) == parts_effort(f, k as nat) + a + 1);
    let back = here.to(Focus::Return(part));
    assert(run(back, 1) == step(run(back, 0)));
    assert(run(back, 0) == back);
    assert(popped(back) == State { focus: back.focus, ..s }) by {
        assert(back.stack.drop_last() =~= s.stack);
    }
    assert(parts(f).take(k).push(part) =~= parts(f).take(k + 1));
    assert(quiet(back, 1));
    lemma_run_add(here, a, 1);
    lemma_quiet_add(here, a, 1);
    if k + 1 < parts(f).len() {
        assert(run(back, 1) == midway(s, f, k + 1));
        lemma_parts(s, f, k + 1);
        let b = (parts_effort(f, parts(f).len()) - parts_effort(f, (k + 1) as nat)) as nat;
        lemma_run_add(here, a + 1, b);
        lemma_quiet_add(here, a + 1, b);
    } else {
        assert(parts(f).take(k + 1) =~= parts(f));
        match f {
            Form::Dict(pairs) => {
                assert(zip(names(pairs), values(pairs)) =~= pairs);
            },
            _ => {},
        }
        assert(run(back, 1) == s.to(Focus::Return(f)));
    }
}

/// A number, a boolean, `nil`, a string, a keyword, an I/O resource, a
/// function, a vector of such forms and a map with such values evaluate to
/// themselves and leave the environment as it was; but for a form so large
/// that its steps are more than the moves that an evaluation makes.
pub proof fn law_self_evaluating(f: Form, env: Scope, r: Result<Form, Fault>, after: Scope)
    requires
        self_evaluating(f),
        effort(f) <= MAX_MOVES,
        evaluates(State::start(f, env), r, after),
    ensures
        r == Ok::<Form, Fault>(f),
        after == env,
{
    let s = State::start(f, env);
    lemma_self_evaluating(s, f);
    law_host_free(s, effort(f), r, after);
}

/// The user functions entered and not yet left, as the stack records them.
pub open spec fn entered(stack: Seq<Cont>) -> nat
    decreases stack.len(),
{
    if stack.len() == 0 {
        0
    } else {
        entered(stack.drop_last()) + match stack.last() {
            Cont::Restore { leave, .. } => if leave {
                1nat
            } else {
                0nat
            },
            _ => 0nat,
        }
    }
}

/// The call of a user function with the right number of arguments fails
/// with `RecursionLimit` where a thousand user functions are entered and
/// not yet left; the state is otherwise as it was.
pub proof fn law_recursion_limit(
    s: State,
    params: Seq<Text>,
    body: Form,
    env: Scope,
    args: Seq<Form>,
    name: Option<Text>,
)
    requires
        s.depth >= depth_limit(),
        args.len() == params.len(),
        s.focus == (Focus::Invoke {
            func: Form::Function(Closure::UserDefined { params, body: Box::new(body), env }),
            args,
            name,
        }),
    ensures
        step(s) == s.fail(ErrorKind::RecursionLimit, "Maximum recursion depth 1000 exceeded"@),
{
    reveal(step);
}

/// Below the limit, the call of a user function with the right number of
/// arguments enters it: the depth grows by one, and the stack records it.
pub proof fn law_call_enters(
    s: State,
    params: Seq<Text>,
    body: Form,
    env: Scope,
    args: Seq<Form>,
    name: Option<Text>,
)
    requires
        s.depth < depth_limit(),
        args.len() == params.len(),
        s.focus == (Focus::Invoke {
            func: Form::Function(Closure::UserDefined { params, body: Box::new(body), env }),
            args,
            name,
        }),
    ensures
        step(s).depth == s.depth + 1,
        step(s).focus == Focus::Eval(body),
        entered(step(s).stack) == entered(s.stack) + 1,
{
    reveal(step);
    assert(step(s).stack.drop_last() =~= s.stack);
}

/// Whether the depth is the number of user functions that the stack
/// records as entered.
pub open spec fn balanced(s: State) -> bool {
    s.depth == entered(s.stack)
}

/// What a continuation adds to the count of entered functions.
pub open spec fn weight(c: Cont) -> nat {
    match c {
        Cont::Restore { leave, .. } => if leave {
            1
        } else {
            0
        },
        _ => 0,
    }
}

proof fn lemma_entered_push(stack: Seq<Cont>, c: Cont)
    ensures
        entered(stack.push(c)) == entered(stack) + weight(c),
{
    assert(stack.push(c).drop_last() =~= stack);
}

/// Whether `t` is `s` with at most two continuations pushed that record no
/// entered function, whatever its focus and environment.
pub open spec fn level(s: State, t: State) -> bool {
    t.depth == s.depth && entered(t.stack) == entered(s.stack)
}

proof fn lemma_level_push(s: State, c: Cont)
    requires
        weight(c) == 0,
    ensures
        level(s, s.push(c)),
        forall|f: Focus| level(s, #[trigger] s.push(c).to(f)),
        forall|e: Scope| level(s, #[trigger] s.push(c).within(e)),
{
    lemma_entered_push(s.stack, c);
}

proof fn lemma_collect_level(s: State, gather: Gathering, items: Seq<Form>)
    ensures
        level(s, collect(s, gather, items)),
{
    if items.len() > 0 {
        lemma_level_push(s, Cont::Collect { gather, forms: items, done: Seq::empty() });
    }
}

proof fn lemma_enter_level(s: State)
    ensures
        level(s, crate::special::enter(s)),
{
    lemma_entered_push(s.stack, Cont::Restore { saved: s.env, leave: false });
}

proof fn lemma_fold_level(
    s: State,
    op: crate::machine::ArithOp,
    total: crate::value::Numeral,
    operands: Seq<Form>,
    from: nat,
)
    ensures
        level(s, crate::builtins::fold_from(s, op, total, operands, from)),
{
    lemma_entered_push(s.stack, Cont::Fold { op, operands, next: from + 1 });
}

proof fn lemma_native_level(s: State, name: Text, args: Seq<Form>)
    ensures
        level(s, crate::builtins::native(s, name, args)),
{
    lemma_entered_push(s.stack, Cont::Discard);
    lemma_entered_push(s.stack, Cont::Restore { saved: s.env, leave: false });
    assert(level(s, crate::format::printf(s, args)));
    lemma_entered_push(s.stack, Cont::Fold { op: crate::machine::ArithOp::Mul, operands: args, next: 0 });
    if args.len() > 0 && args[0] is Number {
        lemma_fold_level(s, crate::machine::ArithOp::Sub, args[0]->Number_0, args, 1);
        lemma_fold_level(s, crate::machine::ArithOp::Div, args[0]->Number_0, args, 1);
    }
    lemma_fold_level(s, crate::machine::ArithOp::Add, crate::number::zero(), args, 0);
    lemma_fold_level(s, crate::machine::ArithOp::Mul, crate::number::one(), args, 0);
}

proof fn lemma_special_level(s: State, name: Text, items: Seq<Form>)
    ensures
        level(s, crate::special::special(s, name, items)),
{
    if items.len() >= 2 {
        lemma_entered_push(s.stack, Cont::Define { name: items[1]->Symbol_0 });
        lemma_entered_push(s.stack, Cont::LoadPath);
        lemma_entered_push(
            s.stack,
            Cont::Each { each: crate::machine::Walk::Do, forms: items, next: 2 },
        );
        lemma_entered_push(
            s.stack,
            Cont::Each { each: crate::machine::Walk::And, forms: items, next: 2 },
        );
        lemma_entered_push(
            s.stack,
            Cont::Each { each: crate::machine::Walk::Or, forms: items, next: 2 },
        );
        lemma_expand_once_level(s, crate::special::unquoted(items[1]));
        lemma_require_level(s, items);
        lemma_quasi_level(s, items[1]);
    }
    if items.len() >= 4 {
        lemma_entered_push(s.stack, Cont::Branch { then_form: items[2], else_form: items[3] });
    }
    if items.len() == 3 {
        lemma_enter_level(s);
        let inner = crate::special::enter(s);
        if items[1] is Vector {
            let bindings = items[1]->Vector_0;
            lemma_bind_level(inner, bindings, 0, items[2]);
            let names = crate::special::letrec_names(bindings, bindings.len());
            if names is Ok {
                lemma_rebind_level(
                    inner.within(
                        crate::special::prebind(inner.env, names->Ok_0, names->Ok_0.len()),
                    ),
                    names->Ok_0,
                    bindings,
                    0,
                    items[2],
                );
            }
        }
    }
}

proof fn lemma_bind_level(s: State, bindings: Seq<Form>, next: nat, body: Form)
    ensures
        level(s, crate::special::bind_from(s, bindings, next, body)),
{
    lemma_entered_push(s.stack, Cont::Bind { bindings, next, body });
}

proof fn lemma_rebind_level(
    s: State,
    names: Seq<Text>,
    bindings: Seq<Form>,
    next: nat,
    body: Form,
)
    ensures
        level(s, crate::special::rebind_from(s, names, bindings, next, body)),
{
    lemma_entered_push(s.stack, Cont::Rebind { names, bindings, next, body });
}

proof fn lemma_expand_once_level(s: State, form: Form)
    ensures
        level(s, crate::special::expand_once(s, form)),
{
    lemma_entered_push(s.stack, Cont::Restore { saved: s.env, leave: false });
}

proof fn lemma_load_namespace_level(s: State, namespace: Text, alias: Option<Text>)
    ensures
        level(s, crate::special::load_namespace(s, namespace, alias)),
{
    let path = crate::special::namespace_path(namespace);
    lemma_entered_push(
        s.stack,
        Cont::Source { purpose: crate::machine::Intent::Require { namespace, alias, path } },
    );
}

proof fn lemma_require_level(s: State, items: Seq<Form>)
    ensures
        level(s, crate::special::require_form(s, items)),
{
    if items.len() == 2 {
        match items[1] {
            Form::Vector(v) => {
                if v.len() == 3 && v[0] is Symbol && v[2] is Symbol {
                    lemma_load_namespace_level(s, v[0]->Symbol_0, Some(v[2]->Symbol_0));
                }
            },
            Form::List(q) => {
                if q.len() == 2 && q[1] is Symbol {
                    lemma_load_namespace_level(s, q[1]->Symbol_0, None);
                }
            },
            Form::Symbol(name) => {
                lemma_load_namespace_level(s, name.skip(1), None);
            },
            _ => {},
        }
    }
}

proof fn lemma_quasi_level(s: State, f: Form)
    ensures
        level(s, crate::semantics::quasi(s, f)),
{
    match f {
        Form::List(items) => lemma_collect_level(s, Gathering::QuasiList, items),
        Form::Vector(items) => lemma_collect_level(s, Gathering::QuasiVector, items),
        _ => {},
    }
}

proof fn lemma_eval_level(s: State, f: Form)
    ensures
        level(s, eval(s, f)),
{
    match f {
        Form::Vector(items) => lemma_collect_level(s, Gathering::Vector, items),
        Form::Dict(pairs) => lemma_collect_level(s, Gathering::Dict(names(pairs)), values(pairs)),
        Form::List(items) => {
            if items.len() > 0 {
                lemma_collect_level(s, Gathering::Call, items);
                lemma_entered_push(s.stack, Cont::Reeval { saved: s.env });
                if items[0] is Symbol {
                    lemma_special_level(s, items[0]->Symbol_0, items);
                }
            }
        },
        _ => {},
    }
}

proof fn lemma_resume_level(s: State, top: Cont, v: Form)
    requires
        weight(top) == 0,
    ensures
        level(s, resume(s, top, v)),
{
    match top {
        Cont::Collect { gather, forms, done } => {
            lemma_entered_push(s.stack, Cont::Collect { gather, forms, done: done.push(v) });
        },
        Cont::Each { each, forms, next } => {
            lemma_entered_push(s.stack, Cont::Each { each, forms, next: next + 1 });
        },
        Cont::Bind { bindings, next, body } => {
            if next < bindings.len() && bindings[next as int] is Symbol {
                lemma_bind_level(
                    s.within(s.env.set(bindings[next as int]->Symbol_0, v)),
                    bindings,
                    next + 2,
                    body,
                );
            }
        },
        Cont::Rebind { names, bindings, next, body } => {
            if next < names.len() {
                lemma_rebind_level(
                    s.within(s.env.update(names[next as int], v)),
                    names,
                    bindings,
                    next + 1,
                    body,
                );
            }
        },
        Cont::LoadPath => {
            if v is Str {
                lemma_entered_push(
                    s.stack,
                    Cont::Source { purpose: crate::machine::Intent::Load { path: v->Str_0 } },
                );
            }
        },
        Cont::Source { purpose } => {
            match purpose {
                crate::machine::Intent::Load { path } => {
                    if v is List {
                        lemma_entered_push(
                            s.stack,
                            Cont::Each {
                                each: crate::machine::Walk::Load(path),
                                forms: v->List_0,
                                next: 1,
                            },
                        );
                    }
                },
                _ => {},
            }
        },
        Cont::Fold { op, operands, next } => {
            if v is Number {
                lemma_fold_level(s, op, v->Number_0, operands, next);
            }
        },
        _ => {},
    }
}

/// The depth counts the calls under way: where the depth is the number of
/// user functions that the stack records as entered, it is so after a
/// step, and it is so at the start and after the host's answer.
pub proof fn law_depth_counts_calls(s: State)
    requires
        balanced(s),
    ensures
        balanced(step(s)),
        forall|answer: Result<Form, Fault>| balanced(#[trigger] crate::semantics::answered(s, answer)),
        forall|f: Form, env: Scope| balanced(#[trigger] State::start(f, env)),
{
    reveal(step);
    match s.focus {
        Focus::Eval(f) => lemma_eval_level(s, f),
        Focus::Quasi(f) => lemma_quasi_level(s, f),
        Focus::Invoke { func, args, name } => {
            lemma_entered_push(s.stack, Cont::Restore { saved: s.env, leave: true });
            if func is Function && func->Function_0 is Native {
                lemma_native_level(s, func->Function_0->Native_0, args);
            }
        },
        Focus::Return(v) => {
            if s.stack.len() > 0 {
                let top = s.stack.last();
                if weight(top) == 0 {
                    lemma_resume_level(popped(s), top, v);
                }
            }
        },
        Focus::Raise(e) => {},
        Focus::Request(_) => {},
    }
}

/// `and` stops at the first falsy value: the forms after it are not
/// evaluated, and the value is the result.
pub proof fn law_and_stops_at_falsy(s: State, forms: Seq<Form>, next: nat, v: Form)
    requires
        !crate::value::truthy(v),
    ensures
        resume(s, Cont::Each { each: crate::machine::Walk::And, forms, next }, v) == s.to(
            Focus::Return(v),
        ),
{
}

/// `or` stops at the first truthy value: the forms after it are not
/// evaluated, and the value is the result.
pub proof fn law_or_stops_at_truthy(s: State, forms: Seq<Form>, next: nat, v: Form)
    requires
        crate::value::truthy(v),
    ensures
        resume(s, Cont::Each { each: crate::machine::Walk::Or, forms, next }, v) == s.to(
            Focus::Return(v),
        ),
{
}

/// The depth counts the calls under way throughout an evaluation, whatever
/// the host answers; so an evaluation that is finished, by a value or by a
/// failure, has left every user function that it entered.
pub proof fn law_depth_is_given_back(f: Form, env: Scope, events: Seq<crate::eval::Event>)
    ensures
        balanced(replay(State::start(f, env), events)),
        replay(State::start(f, env), events).finished() ==> replay(
            State::start(f, env),
            events,
        ).depth == 0,
    decreases events.len(),
{
    let start = State::start(f, env);
    if events.len() == 0 {
        law_depth_counts_calls(start);
        assert(balanced(State::start(f, env)));
    } else {
        law_depth_is_given_back(f, env, events.drop_last());
        law_depth_counts_calls(replay(start, events.drop_last()));
    }
}

} // verus!
