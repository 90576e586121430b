//! The machine keeps its data well formed.
//!
//! A state is sound where what it has in focus, its environment and all
//! that its stack holds are well formed. A step takes a sound state to a
//! sound state, and so does an answer of the host that is well formed.
use vstd::prelude::*;
use crate::env::{distinct, names};
use crate::machine::{Ask, Cont, Focus, Gathering, Intent, State, Walk};
use crate::semantics::{
    answered, bind_upto, call, collect, eval, expand_call, gathered, invoke, meaning, parameters,
    pending, popped, quasi, resume, self_bound, step, values, zip,
};
use crate::builtins::{apply, fold_from, native, spread, time};
use crate::natives::{concat_upto, pure};
use crate::special::{
    bind_from, closure, enter, expand_once, install, install_upto, letrec_names, load_namespace,
    prebind, rebind_from, require_form, required, selection, sourced, special, substitute,
    substitutions, unquoted,
};
use crate::text::Text;
use crate::value::{Closure, Fault, Form, Scope};
use crate::wellformed::{
    all_values_well_formed, all_well_formed, law_child_well_scoped, law_get_well_formed,
    law_namespaces_well_scoped, law_resolve_well_formed, law_root_well_scoped,
    law_set_well_scoped, law_update_well_scoped, lemma_assign_keeps_distinct,
    lemma_assign_keeps_values, lemma_lookup_well_formed, well_formed, well_scoped,
};

verus! {

/// Whether all that a continuation holds is well formed.
pub open spec fn well_cont(c: Cont) -> bool {
    match c {
        Cont::Collect { gather, forms, done } => all_well_formed(forms) && all_well_formed(done)
            && match gather {
            Gathering::Dict(keys) => distinct(keys),
            _ => true,
        },
        Cont::Each { forms, .. } => all_well_formed(forms),
        Cont::Branch { then_form, else_form } => well_formed(then_form) && well_formed(else_form),
        Cont::Bind { bindings, body, .. } => all_well_formed(bindings) && well_formed(body),
        Cont::Rebind { bindings, body, .. } => all_well_formed(bindings) && well_formed(body),
        Cont::Restore { saved, .. } => well_scoped(saved),
        Cont::Reeval { saved } => well_scoped(saved),
        Cont::Fold { operands, .. } => all_well_formed(operands),
        _ => true,
    }
}

/// Whether what is in focus is well formed.
pub open spec fn well_focused(f: Focus) -> bool {
    match f {
        Focus::Eval(v) => well_formed(v),
        Focus::Quasi(v) => well_formed(v),
        Focus::Return(v) => well_formed(v),
        Focus::Invoke { func, args, .. } => well_formed(func) && all_well_formed(args),
        Focus::Raise(_) => true,
        Focus::Request(ask) => match ask {
            Ask::Native { args, .. } => all_well_formed(args),
            _ => true,
        },
    }
}

/// Whether every continuation of a stack is well formed.
pub open spec fn well_stacked(stack: Seq<Cont>) -> bool {
    forall|i: int| 0 <= i < stack.len() ==> well_cont(#[trigger] stack[i])
}

/// Whether the environment and the stack of a state are well formed.
pub open spec fn steady(s: State) -> bool {
    well_scoped(s.env) && well_stacked(s.stack)
}

/// Whether a state is well formed all through.
pub open spec fn sound(s: State) -> bool {
    well_focused(s.focus) && steady(s)
}

proof fn lemma_push(s: State, c: Cont)
    requires
        steady(s),
        well_cont(c),
    ensures
        steady(s.push(c)),
        well_stacked(s.stack.push(c)),
{
    let after = s.stack.push(c);
    assert forall|i: int| 0 <= i < after.len() implies well_cont(#[trigger] after[i]) by {
        if i < s.stack.len() {
            assert(after[i] == s.stack[i]);
        }
    }
}

proof fn lemma_popped(s: State)
    requires
        steady(s),
        s.stack.len() > 0,
    ensures
        steady(popped(s)),
        well_cont(s.stack.last()),
{
    let before = s.stack.drop_last();
    assert forall|i: int| 0 <= i < before.len() implies well_cont(#[trigger] before[i]) by {
        assert(before[i] == s.stack[i]);
    }
}

proof fn lemma_skip(items: Seq<Form>, k: int)
    requires
        all_well_formed(items),
        0 <= k <= items.len(),
    ensures
        all_well_formed(items.skip(k)),
{
    assert forall|i: int| 0 <= i < items.skip(k).len() implies well_formed(
        #[trigger] items.skip(k)[i],
    ) by {
        assert(items.skip(k)[i] == items[i + k]);
    }
}

proof fn lemma_pushed(items: Seq<Form>, v: Form)
    requires
        all_well_formed(items),
        well_formed(v),
    ensures
        all_well_formed(items.push(v)),
{
    assert forall|i: int| 0 <= i < items.push(v).len() implies well_formed(
        #[trigger] items.push(v)[i],
    ) by {
        if i < items.len() {
            assert(items.push(v)[i] == items[i]);
        }
    }
}

proof fn lemma_zip(keys: Seq<Text>, vals: Seq<Form>)
    requires
        distinct(keys),
        all_well_formed(vals),
    ensures
        well_formed(Form::Dict(zip(keys, vals))),
{
    let pairs = zip(keys, vals);
    assert forall|i: int, j: int| 0 <= i < j < pairs.len() implies names(pairs)[i] != names(
        pairs,
    )[j] by {
        assert(names(pairs)[i] == keys[i]);
        assert(names(pairs)[j] == keys[j]);
    }
    assert forall|i: int| 0 <= i < pairs.len() implies well_formed((#[trigger] pairs[i]).1) by {
        assert(pairs[i].1 == vals[i]);
    }
}

proof fn lemma_unzip(pairs: Seq<(Text, Form)>)
    requires
        well_formed(Form::Dict(pairs)),
    ensures
        distinct(names(pairs)),
        all_well_formed(values(pairs)),
{
    assert forall|i: int| 0 <= i < values(pairs).len() implies well_formed(
        #[trigger] values(pairs)[i],
    ) by {
        assert(values(pairs)[i] == pairs[i].1);
    }
}

proof fn lemma_bind(scope: Scope, params: Seq<Text>, args: Seq<Form>, n: nat)
    requires
        well_scoped(scope),
        all_well_formed(args),
    ensures
        well_scoped(bind_upto(scope, params, args, n)),
    decreases n,
{
    if n > 0 && n <= params.len() && n <= args.len() {
        lemma_bind(scope, params, args, (n - 1) as nat);
        law_set_well_scoped(
            bind_upto(scope, params, args, (n - 1) as nat),
            params[n - 1],
            args[n - 1],
        );
    }
}

proof fn lemma_pending(stack: Seq<Cont>, n: nat, name: Text)
    requires
        well_stacked(stack),
    ensures
        pending(stack, n, name) matches Some(v) ==> well_formed(v),
    decreases n,
{
    if n > 0 && n <= stack.len() {
        lemma_pending(stack, (n - 1) as nat, name);
        assert(well_cont(stack[n - 1]));
        match stack[n - 1] {
            Cont::Restore { saved, .. } => law_resolve_well_formed(saved, name),
            Cont::Reeval { saved } => law_resolve_well_formed(saved, name),
            _ => {},
        }
    }
}

proof fn lemma_meaning(s: State, name: Text)
    requires
        steady(s),
    ensures
        meaning(s, name) matches Some(v) ==> well_formed(v),
{
    law_resolve_well_formed(s.env, name);
    lemma_pending(s.stack, s.stack.len(), name);
}

proof fn lemma_gathered(s: State, gather: Gathering, items: Seq<Form>, done: Seq<Form>)
    requires
        steady(s),
        all_well_formed(items),
        all_well_formed(done),
        gather matches Gathering::Dict(keys) ==> distinct(keys),
    ensures
        sound(gathered(s, gather, items, done)),
{
    match gather {
        Gathering::Dict(keys) => lemma_zip(keys, done),
        Gathering::Call => {
            if done.len() > 0 {
                lemma_skip(done, 1);
            }
        },
        _ => {},
    }
}

proof fn lemma_collect(s: State, gather: Gathering, items: Seq<Form>)
    requires
        steady(s),
        all_well_formed(items),
        gather matches Gathering::Dict(keys) ==> distinct(keys),
    ensures
        sound(collect(s, gather, items)),
{
    if items.len() == 0 {
        lemma_gathered(s, gather, items, Seq::empty());
    } else {
        lemma_push(s, Cont::Collect { gather, forms: items, done: Seq::empty() });
    }
}

proof fn lemma_expand_call(s: State, params: Seq<Text>, body: Form, env: Scope, args: Seq<Form>)
    requires
        steady(s),
        well_formed(body),
        well_scoped(env),
        all_well_formed(args),
    ensures
        sound(expand_call(s, params, body, env, args)),
{
    law_child_well_scoped(env);
    lemma_bind(env.child(), params, args, params.len());
    lemma_push(s, Cont::Reeval { saved: s.env });
}

proof fn lemma_call(s: State, items: Seq<Form>)
    requires
        steady(s),
        all_well_formed(items),
        items.len() > 0,
    ensures
        sound(call(s, items)),
{
    lemma_collect(s, Gathering::Call, items);
    match items[0] {
        Form::Symbol(name) => {
            law_resolve_well_formed(s.env, name);
            match s.env.get_with_aliases(name) {
                Some(Form::Function(Closure::Macro { params, body, env })) => {
                    assert(well_formed(Form::Function(Closure::Macro { params, body, env })));
                    assert(well_formed(*body) && well_scoped(env));
                    lemma_skip(items, 1);
                    lemma_expand_call(s, params, *body, env, items.skip(1));
                },
                _ => {},
            }
        },
        _ => {},
    }
}

proof fn lemma_quasi(s: State, f: Form)
    requires
        steady(s),
        well_formed(f),
    ensures
        sound(quasi(s, f)),
{
    match f {
        Form::List(items) => lemma_collect(s, Gathering::QuasiList, items),
        Form::Vector(items) => lemma_collect(s, Gathering::QuasiVector, items),
        _ => {},
    }
}

proof fn lemma_closure(is_macro: bool, params: Seq<Text>, body: Form, env: Scope)
    requires
        well_formed(body),
        well_scoped(env),
    ensures
        well_formed(closure(is_macro, params, body, env)),
{
}

proof fn lemma_spread(f: Form)
    requires
        well_formed(f),
    ensures
        spread(f) matches Some(items) ==> all_well_formed(items),
{
}

proof fn lemma_concat(args: Seq<Form>, n: nat)
    requires
        all_well_formed(args),
    ensures
        concat_upto(args, n) matches Some(items) ==> all_well_formed(items),
    decreases n,
{
    if n > 0 && n <= args.len() {
        lemma_concat(args, (n - 1) as nat);
        lemma_spread(args[n - 1]);
        match (concat_upto(args, (n - 1) as nat), spread(args[n - 1])) {
            (Some(before), Some(items)) => {
                let all = before + items;
                assert forall|i: int| 0 <= i < all.len() implies well_formed(#[trigger] all[i]) by {
                    if i < before.len() {
                        assert(all[i] == before[i]);
                    } else {
                        assert(all[i] == items[i - before.len()]);
                    }
                }
            },
            _ => {},
        }
    }
}

/// What a pure native gives for well-formed arguments is well formed.
pub proof fn lemma_pure(name: Text, args: Seq<Form>)
    requires
        all_well_formed(args),
    ensures
        pure(name, args) matches Some(Ok(v)) ==> well_formed(v),
{
    if args.len() >= 1 {
        assert(well_formed(args[0]));
        law_root_well_scoped();
        lemma_closure(false, seq!["_"@], args[0], Scope::root());
        match args[0] {
            Form::List(items) => {
                if items.len() > 0 {
                    lemma_skip(items, 1);
                }
            },
            Form::Dict(pairs) => {
                if args.len() >= 2 {
                    match crate::natives::as_key(args[1]) {
                        Some(key) => {
                            lemma_lookup_well_formed(pairs, key);
                            if args.len() >= 3 {
                                lemma_assign_keeps_distinct(pairs, key, args[2]);
                                lemma_assign_keeps_values(pairs, key, args[2]);
                            }
                        },
                        None => {},
                    }
                }
            },
            _ => {},
        }
    }
    if args.len() >= 2 {
        assert(well_formed(args[1]));
        match args[1] {
            Form::List(items) => {
                let all = seq![args[0]] + items;
                assert forall|i: int| 0 <= i < all.len() implies well_formed(#[trigger] all[i]) by {
                    if i > 0 {
                        assert(all[i] == items[i - 1]);
                    }
                }
            },
            _ => {
                let one = seq![args[0]];
                assert forall|i: int| 0 <= i < one.len() implies well_formed(#[trigger] one[i]) by {
                }
            },
        }
    }
    lemma_concat(args, args.len());
}

proof fn lemma_fold(
    s: State,
    op: crate::machine::ArithOp,
    total: crate::value::Numeral,
    operands: Seq<Form>,
    from: nat,
)
    requires
        steady(s),
        all_well_formed(operands),
    ensures
        sound(fold_from(s, op, total, operands, from)),
{
    lemma_push(s, Cont::Fold { op, operands, next: from + 1 });
}

proof fn lemma_apply(s: State, args: Seq<Form>)
    requires
        steady(s),
        all_well_formed(args),
    ensures
        sound(apply(s, args)),
        sound(time(s, args)),
{
    lemma_push(s, Cont::Restore { saved: s.env, leave: false });
    if args.len() >= 1 {
        assert(well_formed(args[0]));
        match args[0] {
            Form::Function(Closure::UserDefined { params, body, env }) => {
                if args.len() == 2 {
                    assert(well_formed(args[1]));
                    lemma_spread(args[1]);
                    match spread(args[1]) {
                        Some(call_args) => lemma_bind(env, params, call_args, params.len()),
                        None => {},
                    }
                }
            },
            _ => {
                if args.len() == 2 {
                    assert(well_formed(args[1]));
                    lemma_spread(args[1]);
                }
            },
        }
    }
}

/// The call of a native keeps a state sound.
pub proof fn lemma_native(s: State, name: Text, args: Seq<Form>)
    requires
        steady(s),
        all_well_formed(args),
    ensures
        sound(native(s, name, args)),
{
    lemma_push(s, Cont::Discard);
    lemma_push(s, Cont::Fold { op: crate::machine::ArithOp::Mul, operands: args, next: 0 });
    lemma_apply(s, args);
    lemma_pure(name, args);
    if args.len() > 0 && args[0] is Number {
        lemma_fold(s, crate::machine::ArithOp::Sub, args[0]->Number_0, args, 1);
        lemma_fold(s, crate::machine::ArithOp::Div, args[0]->Number_0, args, 1);
    }
    lemma_fold(s, crate::machine::ArithOp::Add, crate::number::zero(), args, 0);
    lemma_fold(s, crate::machine::ArithOp::Mul, crate::number::one(), args, 0);
}

proof fn lemma_invoke(s: State, func: Form, args: Seq<Form>, name: Option<Text>)
    requires
        steady(s),
        well_formed(func),
        all_well_formed(args),
    ensures
        sound(invoke(s, func, args, name)),
{
    match func {
        Form::Keyword(key) => {
            if args.len() == 1 {
                assert(well_formed(args[0]));
                match args[0] {
                    Form::Dict(pairs) => lemma_lookup_well_formed(pairs, key),
                    _ => {},
                }
            }
        },
        Form::Function(Closure::Native(n)) => lemma_native(s, n, args),
        Form::Function(Closure::UserDefined { params, body, env }) => {
            law_child_well_scoped(env);
            match name {
                Some(n) => law_set_well_scoped(env.child(), n, func),
                None => {},
            }
            lemma_bind(self_bound(env.child(), name, func), params, args, params.len());
            lemma_push(s, Cont::Restore { saved: s.env, leave: true });
        },
        _ => {},
    }
}

proof fn lemma_enter(s: State)
    requires
        steady(s),
    ensures
        steady(enter(s)),
{
    law_child_well_scoped(s.env);
    lemma_push(s, Cont::Restore { saved: s.env, leave: false });
}

proof fn lemma_bind_from(s: State, bindings: Seq<Form>, next: nat, body: Form)
    requires
        steady(s),
        all_well_formed(bindings),
        well_formed(body),
    ensures
        sound(bind_from(s, bindings, next, body)),
{
    lemma_push(s, Cont::Bind { bindings, next, body });
}

proof fn lemma_rebind_from(
    s: State,
    names: Seq<Text>,
    bindings: Seq<Form>,
    next: nat,
    body: Form,
)
    requires
        steady(s),
        all_well_formed(bindings),
        well_formed(body),
    ensures
        sound(rebind_from(s, names, bindings, next, body)),
{
    lemma_push(s, Cont::Rebind { names, bindings, next, body });
    if next < bindings.len() {
        assert(well_formed(bindings[next as int]));
        match bindings[next as int] {
            Form::Vector(pair) => {
                if pair.len() == 2 {
                    assert(well_formed(pair[1]));
                }
            },
            _ => {},
        }
    }
}

proof fn lemma_prebind(scope: Scope, names: Seq<Text>, n: nat)
    requires
        well_scoped(scope),
    ensures
        well_scoped(prebind(scope, names, n)),
    decreases n,
{
    if n > 0 && n <= names.len() {
        lemma_prebind(scope, names, (n - 1) as nat);
        law_set_well_scoped(prebind(scope, names, (n - 1) as nat), names[n - 1], Form::Uninitialized);
    }
}

proof fn lemma_substitutions(params: Seq<Text>, args: Seq<Form>, n: nat)
    requires
        all_well_formed(args),
    ensures
        all_values_well_formed(substitutions(params, args, n)),
    decreases n,
{
    if n > 0 && n <= params.len() && n <= args.len() {
        lemma_substitutions(params, args, (n - 1) as nat);
        lemma_assign_keeps_values(
            substitutions(params, args, (n - 1) as nat),
            params[n - 1],
            args[n - 1],
        );
    }
}

proof fn lemma_substitute(f: Form, table: Seq<(Text, Form)>)
    requires
        well_formed(f),
        all_values_well_formed(table),
    ensures
        well_formed(substitute(f, table)),
    decreases f,
{
    match f {
        Form::Symbol(name) => lemma_lookup_well_formed(table, name),
        Form::List(items) => {
            let out = substitute(f, table)->List_0;
            assert forall|i: int| 0 <= i < out.len() implies well_formed(#[trigger] out[i]) by {
                lemma_substitute(items[i], table);
            }
        },
        Form::Vector(items) => {
            let out = substitute(f, table)->Vector_0;
            assert forall|i: int| 0 <= i < out.len() implies well_formed(#[trigger] out[i]) by {
                lemma_substitute(items[i], table);
            }
        },
        _ => {},
    }
}

proof fn lemma_expand_once(s: State, form: Form)
    requires
        steady(s),
        well_formed(form),
    ensures
        sound(expand_once(s, form)),
{
    match form {
        Form::List(items) => {
            if items.len() > 0 {
                match items[0] {
                    Form::Symbol(name) => {
                        law_resolve_well_formed(s.env, name);
                        match s.env.get_with_namespaces(name) {
                            Some(Form::Function(Closure::Macro { params, body, env })) => {
                                let args = items.skip(1);
                                assert(well_formed(
                                    Form::Function(Closure::Macro { params, body, env }),
                                ));
                                assert(well_formed(*body) && well_scoped(env));
                                lemma_skip(items, 1);
                                law_child_well_scoped(env);
                                lemma_bind(env.child(), params, args, params.len());
                                lemma_push(s, Cont::Restore { saved: s.env, leave: false });
                                lemma_substitutions(params, args, params.len());
                                lemma_substitute(*body, substitutions(params, args, params.len()));
                                match *body {
                                    Form::List(b) => {
                                        if b.len() == 2 {
                                            assert(well_formed(b[1]));
                                        }
                                    },
                                    _ => {},
                                }
                            },
                            _ => {},
                        }
                    },
                    _ => {},
                }
            }
        },
        _ => {},
    }
}

proof fn lemma_unquoted(form: Form)
    requires
        well_formed(form),
    ensures
        well_formed(unquoted(form)),
{
    match form {
        Form::List(items) => {
            if items.len() == 2 {
                assert(well_formed(items[1]));
            }
        },
        _ => {},
    }
}

proof fn lemma_required(s: State, namespace: Text, alias: Option<Text>)
    requires
        steady(s),
    ensures
        sound(required(s, namespace, alias)),
        sound(load_namespace(s, namespace, alias)),
{
    match alias {
        Some(a) => law_namespaces_well_scoped(s.env, a, namespace),
        None => {},
    }
    let path = crate::special::namespace_path(namespace);
    lemma_push(s, Cont::Source { purpose: Intent::Require { namespace, alias, path } });
}

proof fn lemma_require_form(s: State, items: Seq<Form>)
    requires
        steady(s),
    ensures
        sound(require_form(s, items)),
{
    if items.len() == 2 {
        match items[1] {
            Form::Vector(v) => {
                if v.len() == 3 && v[0] is Symbol && v[2] is Symbol {
                    lemma_required(s, v[0]->Symbol_0, Some(v[2]->Symbol_0));
                }
            },
            Form::List(q) => {
                if q.len() == 2 && q[1] is Symbol {
                    lemma_required(s, q[1]->Symbol_0, None);
                }
            },
            Form::Symbol(name) => {
                lemma_required(s, name.skip(1), None);
            },
            _ => {},
        }
    }
}

proof fn lemma_selection(env: Scope, wanted: Seq<Text>, n: nat)
    requires
        well_scoped(env),
    ensures
        well_scoped(selection(env, wanted, n)),
    decreases n,
{
    if n > 0 && n <= wanted.len() {
        lemma_selection(env, wanted, (n - 1) as nat);
        law_get_well_formed(env, wanted[n - 1]);
        match env.get(wanted[n - 1]) {
            Some(v) => law_set_well_scoped(
                selection(env, wanted, (n - 1) as nat),
                wanted[n - 1],
                v,
            ),
            None => {},
        }
    } else {
        law_root_well_scoped();
    }
}

proof fn lemma_install(env: Scope, form: Form)
    requires
        well_scoped(env),
        well_formed(form),
    ensures
        install(env, form) matches Ok(after) ==> well_scoped(after),
{
    match form {
        Form::List(items) => {
            if items.len() == 4 {
                assert(well_formed(items[3]));
                lemma_selection(
                    env,
                    crate::special::essentials(),
                    crate::special::essentials().len(),
                );
                match (items[1], parameters("Function"@, items[2]), parameters(
                    "Macro"@,
                    items[2],
                )) {
                    (Form::Symbol(name), Ok(p), Ok(q)) => {
                        let small = selection(
                            env,
                            crate::special::essentials(),
                            crate::special::essentials().len(),
                        );
                        lemma_closure(false, p, items[3], small);
                        lemma_closure(true, q, items[3], env);
                        law_set_well_scoped(env, name, closure(false, p, items[3], small));
                        law_set_well_scoped(env, name, closure(true, q, items[3], env));
                    },
                    _ => {},
                }
            }
            if items.len() == 3 {
                assert(well_formed(items[2]));
                match items[1] {
                    Form::Symbol(name) => law_set_well_scoped(env, name, items[2]),
                    _ => {},
                }
            }
        },
        _ => {},
    }
}

proof fn lemma_install_upto(env: Scope, forms: Seq<Form>, n: nat)
    requires
        well_scoped(env),
        all_well_formed(forms),
    ensures
        well_scoped(install_upto(env, forms, n).env),
    decreases n,
{
    if n > 0 && n <= forms.len() {
        lemma_install_upto(env, forms, (n - 1) as nat);
        lemma_install(install_upto(env, forms, (n - 1) as nat).env, forms[n - 1]);
    }
}

proof fn lemma_sourced(s: State, purpose: Intent, v: Form)
    requires
        steady(s),
        well_formed(v),
    ensures
        sound(sourced(s, purpose, v)),
{
    match (purpose, v) {
        (Intent::Load { path }, Form::List(forms)) => {
            lemma_push(s, Cont::Each { each: Walk::Load(path), forms, next: 1 });
        },
        (Intent::Require { namespace, alias, path }, Form::List(forms)) => {
            lemma_install_upto(s.env, forms, forms.len());
            let installed = install_upto(s.env, forms, forms.len());
            law_namespaces_well_scoped(installed.env, namespace, namespace);
            lemma_required(
                s.within(installed.env.add_loaded_namespace(namespace)),
                namespace,
                alias,
            );
        },
        _ => {},
    }
}

/// A special form keeps a state sound.
pub proof fn lemma_special(s: State, name: Text, items: Seq<Form>)
    requires
        steady(s),
        all_well_formed(items),
        items.len() > 0,
    ensures
        sound(special(s, name, items)),
{
    lemma_require_form(s, items);
    lemma_push(s, Cont::LoadPath);
    if items.len() >= 2 {
        assert(well_formed(items[1]));
        lemma_push(s, Cont::Each { each: Walk::Do, forms: items, next: 2 });
        lemma_push(s, Cont::Each { each: Walk::And, forms: items, next: 2 });
        lemma_push(s, Cont::Each { each: Walk::Or, forms: items, next: 2 });
        lemma_unquoted(items[1]);
        lemma_expand_once(s, unquoted(items[1]));
        lemma_quasi_focus(s, items[1]);
        match items[1] {
            Form::Symbol(n) => {
                lemma_push(s, Cont::Define { name: n });
                law_namespaces_well_scoped(s.env, n, n);
            },
            _ => {},
        }
    }
    if items.len() >= 3 {
        assert(well_formed(items[2]));
        match parameters("Function"@, items[1]) {
            Ok(p) => lemma_closure(false, p, items[2], s.env),
            Err(_) => {},
        }
    }
    if items.len() == 3 {
        lemma_enter(s);
        let inner = enter(s);
        match items[1] {
            Form::Vector(bindings) => {
                lemma_bind_from(inner, bindings, 0, items[2]);
                match letrec_names(bindings, bindings.len()) {
                    Ok(names) => {
                        lemma_prebind(inner.env, names, names.len());
                        lemma_rebind_from(
                            inner.within(prebind(inner.env, names, names.len())),
                            names,
                            bindings,
                            0,
                            items[2],
                        );
                    },
                    Err(_) => {},
                }
            },
            _ => {},
        }
    }
    if items.len() >= 4 {
        assert(well_formed(items[3]));
        lemma_push(s, Cont::Branch { then_form: items[2], else_form: items[3] });
        match (items[1], parameters("Function"@, items[2]), parameters("Macro"@, items[2])) {
            (Form::Symbol(n), Ok(p), Ok(q)) => {
                lemma_closure(false, p, items[3], s.env);
                lemma_closure(true, q, items[3], s.env);
                law_set_well_scoped(s.env, n, closure(false, p, items[3], s.env));
                law_set_well_scoped(s.env, n, closure(true, q, items[3], s.env));
            },
            _ => {},
        }
    }
}

proof fn lemma_quasi_focus(s: State, f: Form)
    requires
        steady(s),
        well_formed(f),
    ensures
        sound(s.to(Focus::Quasi(f))),
        sound(s.to(Focus::Return(f))),
        sound(s.to(Focus::Eval(f))),
{
}

proof fn lemma_eval(s: State, f: Form)
    requires
        steady(s),
        well_formed(f),
    ensures
        sound(eval(s, f)),
{
    match f {
        Form::Symbol(name) => lemma_meaning(s, name),
        Form::Vector(items) => lemma_collect(s, Gathering::Vector, items),
        Form::Dict(pairs) => {
            lemma_unzip(pairs);
            lemma_collect(s, Gathering::Dict(names(pairs)), values(pairs));
        },
        Form::List(items) => {
            if items.len() > 0 {
                lemma_call(s, items);
                match items[0] {
                    Form::Symbol(name) => lemma_special(s, name, items),
                    _ => {},
                }
            } else {
                assert(well_formed(Form::List(Seq::<Form>::empty())));
            }
        },
        _ => {},
    }
}

proof fn lemma_resume(s: State, top: Cont, v: Form)
    requires
        steady(s),
        well_cont(top),
        well_formed(v),
    ensures
        sound(resume(s, top, v)),
{
    match top {
        Cont::Collect { gather, forms, done } => {
            lemma_pushed(done, v);
            let done = done.push(v);
            if done.len() < forms.len() {
                lemma_push(s, Cont::Collect { gather, forms, done });
                assert(well_formed(forms[done.len() as int]));
            } else {
                lemma_gathered(s, gather, forms, done);
            }
        },
        Cont::Each { each, forms, next } => {
            lemma_push(s, Cont::Each { each, forms, next: next + 1 });
            if next < forms.len() {
                assert(well_formed(forms[next as int]));
            }
        },
        Cont::Define { name } => law_set_well_scoped(s.env, name, v),
        Cont::Bind { bindings, next, body } => {
            if next < bindings.len() {
                match bindings[next as int] {
                    Form::Symbol(name) => {
                        law_set_well_scoped(s.env, name, v);
                        lemma_bind_from(s.within(s.env.set(name, v)), bindings, next + 2, body);
                    },
                    _ => {},
                }
            }
        },
        Cont::Rebind { names, bindings, next, body } => {
            if next < names.len() {
                law_update_well_scoped(s.env, names[next as int], v);
                lemma_rebind_from(
                    s.within(s.env.update(names[next as int], v)),
                    names,
                    bindings,
                    next + 1,
                    body,
                );
            }
        },
        Cont::LoadPath => {
            match v {
                Form::Str(path) => lemma_push(
                    s,
                    Cont::Source { purpose: Intent::Load { path } },
                ),
                _ => {},
            }
        },
        Cont::Source { purpose } => lemma_sourced(s, purpose, v),
        Cont::Fold { op, operands, next } => {
            match v {
                Form::Number(total) => lemma_fold(s, op, total, operands, next),
                _ => {},
            }
        },
        _ => {},
    }
}

/// A step takes a sound state to a sound state; the start on a well-formed
/// form in a well-formed environment is sound; and a sound state is sound
/// after an answer of the host that is a failure or a well-formed value.
pub proof fn law_step_keeps_sound(s: State)
    requires
        sound(s),
    ensures
        sound(step(s)),
        forall|e: Fault| sound(#[trigger] answered(s, Err(e))),
        forall|v: Form| well_formed(v) ==> sound(#[trigger] answered(s, Ok(v))),
{
    reveal(step);
    match s.focus {
        Focus::Eval(f) => lemma_eval(s, f),
        Focus::Quasi(f) => lemma_quasi(s, f),
        Focus::Invoke { func, args, name } => lemma_invoke(s, func, args, name),
        Focus::Return(v) => {
            if s.stack.len() > 0 {
                lemma_popped(s);
                lemma_resume(popped(s), s.stack.last(), v);
            }
        },
        Focus::Raise(e) => {
            if s.stack.len() > 0 {
                lemma_popped(s);
            }
        },
        Focus::Request(_) => {},
    }
}

/// The start on a well-formed form in a well-formed environment is sound.
pub proof fn law_start_sound(f: Form, env: Scope)
    requires
        well_formed(f),
        well_scoped(env),
    ensures
        sound(State::start(f, env)),
{
}

/// Whether every value among the host's answers is well formed.
pub open spec fn well_answered(events: Seq<crate::eval::Event>) -> bool {
    forall|i: int|
        0 <= i < events.len() ==> match #[trigger] events[i] {
            crate::eval::Event::Answer(Ok(v)) => well_formed(v),
            _ => true,
        }
}

/// An evaluation that starts sound stays sound, as long as the values that
/// the host answers are well formed: whatever it gives, and the environment
/// it leaves, are well formed.
pub proof fn law_evaluation_keeps_sound(s: State, events: Seq<crate::eval::Event>)
    requires
        sound(s),
        well_answered(events),
    ensures
        sound(crate::eval::replay(s, events)),
    decreases events.len(),
{
    if events.len() > 0 {
        let before = events.drop_last();
        assert forall|i: int| 0 <= i < before.len() implies match #[trigger] before[i] {
            crate::eval::Event::Answer(Ok(v)) => well_formed(v),
            _ => true,
        } by {
            assert(before[i] == events[i]);
        }
        law_evaluation_keeps_sound(s, before);
        law_step_keeps_sound(crate::eval::replay(s, before));
        assert(events.last() == events[events.len() - 1]);
    }
}

} // verus!
