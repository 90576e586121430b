//! The special forms: what each means, and the machine's moves for them.
use vstd::prelude::*;
use crate::env::{assign, lookup};
use crate::machine::{Ask, Cont, Focus, Intent, State, Walk};
use crate::semantics::{arity_message, bind_all, parameters};
use crate::text::Text;
use crate::value::{Closure, ErrorKind, Fault, Form, Scope};

verus! {

/// The symbol with the given name.
pub open spec fn symbol(name: Text) -> Form {
    Form::Symbol(name)
}

/// `(def name expr)`: the value of `expr` is bound to `name`, qualified by
/// the current namespace, in the current frame, and is the result.
pub open spec fn def_form(s: State, items: Seq<Form>) -> State {
    if items.len() != 3 {
        s.fail(ErrorKind::ArityError, "def requires exactly 2 arguments"@)
    } else {
        match items[1] {
            Form::Symbol(name) => s.push(Cont::Define { name }).to(Focus::Eval(items[2])),
            _ => s.fail(ErrorKind::TypeError, "First argument to def must be a symbol"@),
        }
    }
}

/// The function or macro that `params` and `body` make in `env`.
pub open spec fn closure(is_macro: bool, params: Seq<Text>, body: Form, env: Scope) -> Form {
    if is_macro {
        Form::Function(Closure::Macro { params, body: Box::new(body), env })
    } else {
        Form::Function(Closure::UserDefined { params, body: Box::new(body), env })
    }
}

/// `(defn name params body)` and `(defmacro name params body)`: a function
/// or macro over a snapshot of the environment, bound to `name`.
pub open spec fn defn_form(s: State, items: Seq<Form>, is_macro: bool) -> State {
    let word = if is_macro {
        "defmacro"@
    } else {
        "defn"@
    };
    let what = if is_macro {
        "Macro"@
    } else {
        "Function"@
    };
    if items.len() != 4 {
        s.fail(ErrorKind::ArityError, word + " requires exactly 3 arguments"@)
    } else {
        match items[1] {
            Form::Symbol(name) => match parameters(what, items[2]) {
                Ok(params) => {
                    let f = closure(is_macro, params, items[3], s.env);
                    s.within(s.env.set_namespaced(name, f)).to(Focus::Return(f))
                },
                Err(e) => s.to(Focus::Raise(e)),
            },
            _ => s.fail(ErrorKind::TypeError, "First argument to "@ + word + " must be a symbol"@),
        }
    }
}

/// `(fn params body)`: a function over a snapshot of the environment.
pub open spec fn fn_form(s: State, items: Seq<Form>) -> State {
    if items.len() != 3 {
        s.fail(ErrorKind::ArityError, "fn requires exactly 2 arguments"@)
    } else {
        match parameters("Function"@, items[1]) {
            Ok(params) => s.to(Focus::Return(closure(false, params, items[2], s.env))),
            Err(e) => s.to(Focus::Raise(e)),
        }
    }
}

/// `(if c t e)`: `c` is evaluated, then `t` where it is truthy, else `e`.
pub open spec fn if_form(s: State, items: Seq<Form>) -> State {
    if items.len() != 4 {
        s.fail(ErrorKind::ArityError, "if requires exactly 3 arguments"@)
    } else {
        s.push(Cont::Branch { then_form: items[2], else_form: items[3] }).to(
            Focus::Eval(items[1]),
        )
    }
}

/// `(do e1 e2 ...)`: each in order, the last one's value; at least one.
pub open spec fn do_form(s: State, items: Seq<Form>) -> State {
    if items.len() < 2 {
        s.fail(ErrorKind::ArityError, "do requires at least 1 argument"@)
    } else {
        s.push(Cont::Each { each: Walk::Do, forms: items, next: 2 }).to(Focus::Eval(items[1]))
    }
}

/// `(and ...)` and `(or ...)`: without arguments `true` and `nil`; else
/// left to right up to the first value that decides, or the last.
pub open spec fn logic_form(s: State, items: Seq<Form>, each: Walk) -> State {
    if items.len() <= 1 {
        if each is And {
            s.to(Focus::Return(Form::Bool(true)))
        } else {
            s.to(Focus::Return(Form::Nil))
        }
    } else {
        s.push(Cont::Each { each, forms: items, next: 2 }).to(Focus::Eval(items[1]))
    }
}

/// Goes on with the `let` pair at `next`, or with the body after the last.
pub open spec fn bind_from(s: State, bindings: Seq<Form>, next: nat, body: Form) -> State {
    if next + 1 >= bindings.len() {
        s.to(Focus::Eval(body))
    } else {
        match bindings[next as int] {
            Form::Symbol(_) => s.push(Cont::Bind { bindings, next, body }).to(
                Focus::Eval(bindings[next as int + 1]),
            ),
            _ => s.fail(ErrorKind::TypeError, "Binding names must be symbols"@),
        }
    }
}

/// The state in a fresh frame over the current environment, which comes
/// back when the value does.
pub open spec fn enter(s: State) -> State {
    State {
        focus: s.focus,
        env: s.env.child(),
        stack: s.stack.push(Cont::Restore { saved: s.env, leave: false }),
        depth: s.depth,
    }
}

/// `(let [k1 v1 k2 v2 ...] body)`: the pairs are bound one after the other
/// in a fresh frame, so that a later one sees the earlier; then the body.
pub open spec fn let_form(s: State, items: Seq<Form>) -> State {
    if items.len() != 3 {
        s.fail(ErrorKind::ArityError, "let requires exactly 2 arguments"@)
    } else {
        match items[1] {
            Form::Vector(bindings) => if bindings.len() % 2 != 0 {
                s.fail(
                    ErrorKind::ArityError,
                    "let bindings must have an even number of elements"@,
                )
            } else {
                bind_from(enter(s), bindings, 0, items[2])
            },
            _ => s.fail(ErrorKind::TypeError, "let bindings must be a vector"@),
        }
    }
}

/// The names that the first `n` bindings of a `letrec` introduce, or the
/// first fault among them.
pub open spec fn letrec_names(bindings: Seq<Form>, n: nat) -> Result<Seq<Text>, Fault>
    decreases n,
{
    if n == 0 || n > bindings.len() {
        Ok(Seq::empty())
    } else {
        match letrec_names(bindings, (n - 1) as nat) {
            Err(e) => Err(e),
            Ok(before) => match bindings[n - 1] {
                Form::Vector(pair) => if pair.len() != 2 {
                    Err(
                        Fault {
                            kind: ErrorKind::TypeError,
                            message: "Each binding must be a vector of [name value]"@,
                        },
                    )
                } else {
                    match pair[0] {
                        Form::Symbol(name) => Ok(before.push(name)),
                        _ => Err(
                            Fault {
                                kind: ErrorKind::TypeError,
                                message: "Binding name must be a symbol"@,
                            },
                        ),
                    }
                },
                _ => Err(
                    Fault {
                        kind: ErrorKind::TypeError,
                        message: "Each binding must be a vector"@,
                    },
                ),
            },
        }
    }
}

/// `scope` with the first `n` names bound to the placeholder.
pub open spec fn prebind(scope: Scope, names: Seq<Text>, n: nat) -> Scope
    decreases n,
{
    if n == 0 || n > names.len() {
        scope
    } else {
        prebind(scope, names, (n - 1) as nat).set(names[n - 1], Form::Uninitialized)
    }
}

/// Goes on with the `letrec` binding at `next`, or with the body after the
/// last.
pub open spec fn rebind_from(
    s: State,
    names: Seq<Text>,
    bindings: Seq<Form>,
    next: nat,
    body: Form,
) -> State {
    if next >= bindings.len() {
        s.to(Focus::Eval(body))
    } else {
        match bindings[next as int] {
            Form::Vector(pair) => if pair.len() == 2 {
                s.push(Cont::Rebind { names, bindings, next, body }).to(Focus::Eval(pair[1]))
            } else {
                s.to(Focus::Eval(body))
            },
            _ => s.to(Focus::Eval(body)),
        }
    }
}

/// `(letrec [[k1 v1] [k2 v2] ...] body)`: in a fresh frame every name is
/// first bound to the placeholder, then each value is evaluated and takes
/// the place of its placeholder, then the body is evaluated.
pub open spec fn letrec_form(s: State, items: Seq<Form>) -> State {
    if items.len() != 3 {
        s.fail(ErrorKind::ArityError, "letrec requires exactly 2 arguments"@)
    } else {
        match items[1] {
            Form::Vector(bindings) => match letrec_names(bindings, bindings.len()) {
                Err(e) => s.to(Focus::Raise(e)),
                Ok(names) => {
                    let inner = enter(s);
                    rebind_from(
                        inner.within(prebind(inner.env, names, names.len())),
                        names,
                        bindings,
                        0,
                        items[2],
                    )
                },
            },
            _ => s.fail(ErrorKind::TypeError, "letrec bindings must be a vector"@),
        }
    }
}

/// `(quote x)`: `x` as it stands.
pub open spec fn quote_form(s: State, items: Seq<Form>) -> State {
    if items.len() != 2 {
        s.fail(ErrorKind::ArityError, "quote requires exactly 1 argument"@)
    } else {
        s.to(Focus::Return(items[1]))
    }
}

/// `(quasiquote x)`: `x` rebuilt, with every `unquote` evaluated.
pub open spec fn quasiquote_form(s: State, items: Seq<Form>) -> State {
    if items.len() != 2 {
        s.fail(ErrorKind::ArityError, "quasiquote requires exactly 1 argument"@)
    } else {
        s.to(Focus::Quasi(items[1]))
    }
}

/// The table that maps the first `n` parameters to their arguments; a
/// later parameter of the same name replaces an earlier one.
pub open spec fn substitutions(params: Seq<Text>, args: Seq<Form>, n: nat) -> Seq<(Text, Form)>
    decreases n,
{
    if n == 0 || n > params.len() || n > args.len() {
        Seq::empty()
    } else {
        assign(substitutions(params, args, (n - 1) as nat), params[n - 1], args[n - 1])
    }
}

/// `f` with every symbol that `table` names replaced, through lists and
/// vectors.
pub open spec fn substitute(f: Form, table: Seq<(Text, Form)>) -> Form
    decreases f,
{
    match f {
        Form::Symbol(name) => match lookup(table, name) {
            Some(replacement) => replacement,
            None => f,
        },
        Form::List(items) => Form::List(
            Seq::new(
                items.len(),
                |i: int|
                    if 0 <= i < items.len() {
                        substitute(items[i], table)
                    } else {
                        Form::Nil
                    },
            ),
        ),
        Form::Vector(items) => Form::Vector(
            Seq::new(
                items.len(),
                |i: int|
                    if 0 <= i < items.len() {
                        substitute(items[i], table)
                    } else {
                        Form::Nil
                    },
            ),
        ),
        _ => f,
    }
}

/// The body of a `quasiquote` form with one argument.
pub open spec fn quasiquoted(body: Form) -> Option<Form> {
    match body {
        Form::List(items) => if items.len() == 2 && items[0] == Form::Symbol("quasiquote"@) {
            Some(items[1])
        } else {
            None
        },
        _ => None,
    }
}

/// One expansion of `form` without evaluating it: where its head is a
/// symbol that names a macro, the macro's body with the arguments in the
/// place of the parameters; else `form` itself. A body that is a
/// `quasiquote` is rebuilt as `quasiquote` does, over the macro's
/// environment; any other body has its parameters replaced by substitution.
pub open spec fn expand_once(s: State, form: Form) -> State {
    match form {
        Form::List(items) => if items.len() == 0 {
            s.to(Focus::Return(form))
        } else {
            match items[0] {
                Form::Symbol(name) => match s.env.get_with_namespaces(name) {
                    Some(Form::Function(Closure::Macro { params, body, env })) => {
                        let args = items.skip(1);
                        if args.len() != params.len() {
                            s.fail(
                                ErrorKind::ArityError,
                                arity_message("Macro"@, params.len(), args.len()),
                            )
                        } else {
                            match quasiquoted(*body) {
                                Some(template) => State {
                                    focus: Focus::Quasi(template),
                                    env: bind_all(env.child(), params, args),
                                    stack: s.stack.push(
                                        Cont::Restore { saved: s.env, leave: false },
                                    ),
                                    depth: s.depth,
                                },
                                None => s.to(
                                    Focus::Return(
                                        substitute(
                                            *body,
                                            substitutions(params, args, params.len()),
                                        ),
                                    ),
                                ),
                            }
                        }
                    },
                    _ => s.to(Focus::Return(form)),
                },
                _ => s.to(Focus::Return(form)),
            }
        },
        _ => s.to(Focus::Return(form)),
    }
}

/// What `(quote f)` quotes.
pub open spec fn unquoted(form: Form) -> Form {
    match form {
        Form::List(items) => if items.len() == 2 && items[0] == Form::Symbol("quote"@) {
            items[1]
        } else {
            form
        },
        _ => form,
    }
}

/// `(macroexpand form)`: one expansion of `form`, or of what it quotes.
pub open spec fn macroexpand_form(s: State, items: Seq<Form>) -> State {
    if items.len() != 2 {
        s.fail(ErrorKind::ArityError, "macroexpand requires exactly 1 argument"@)
    } else {
        expand_once(s, unquoted(items[1]))
    }
}

/// `(load path)`: `path` is evaluated to a string; the forms of that file
/// are evaluated in order, and the last value is the result.
pub open spec fn load_form(s: State, items: Seq<Form>) -> State {
    if items.len() != 2 {
        s.fail(ErrorKind::ArityError, "load requires exactly 1 argument"@)
    } else {
        s.push(Cont::LoadPath).to(Focus::Eval(items[1]))
    }
}

/// `(ns name)`: `name` becomes the current namespace and is the result.
pub open spec fn ns_form(s: State, items: Seq<Form>) -> State {
    if items.len() != 2 {
        s.fail(ErrorKind::ArityError, "ns requires exactly 1 argument"@)
    } else {
        match items[1] {
            Form::Symbol(name) => s.within(s.env.set_namespace(name)).to(
                Focus::Return(Form::Symbol(name)),
            ),
            _ => s.fail(ErrorKind::TypeError, "ns requires a symbol argument"@),
        }
    }
}

/// `s` with every `from` replaced by `to`.
pub open spec fn replaced(s: Text, from: char, to: char) -> Text {
    Seq::new(
        s.len(),
        |i: int|
            if s[i] == from {
                to
            } else {
                s[i]
            },
    )
}

/// The file of a namespace: `a.b.c` is `std/a/b/c.lisp`.
pub open spec fn namespace_path(namespace: Text) -> Text {
    "std/"@ + replaced(namespace, '.', '/') + ".lisp"@
}

/// The end of `require`: the alias, where one was asked for, and the
/// namespace's name as the result.
pub open spec fn required(s: State, namespace: Text, alias: Option<Text>) -> State {
    match alias {
        Some(a) => s.within(s.env.add_alias(a, namespace)).to(
            Focus::Return(Form::Symbol(namespace)),
        ),
        None => s.to(Focus::Return(Form::Symbol(namespace))),
    }
}

/// Loads a namespace unless it is loaded: asks the host for the forms of
/// its file.
pub open spec fn load_namespace(s: State, namespace: Text, alias: Option<Text>) -> State {
    if s.env.is_namespace_loaded(namespace) {
        required(s, namespace, alias)
    } else {
        let path = namespace_path(namespace);
        s.push(Cont::Source { purpose: Intent::Require { namespace, alias, path } }).to(
            Focus::Request(Ask::Source { path }),
        )
    }
}

/// `(require 'name)` and `(require [name :as alias])`.
pub open spec fn require_form(s: State, items: Seq<Form>) -> State {
    if items.len() != 2 {
        s.fail(ErrorKind::ArityError, "require requires exactly 1 argument"@)
    } else {
        match items[1] {
            Form::Vector(v) => if v.len() == 3 {
                match (v[0], v[1], v[2]) {
                    (Form::Symbol(namespace), Form::Keyword(word), Form::Symbol(alias)) => if word
                        == "as"@ {
                        load_namespace(s, namespace, Some(alias))
                    } else {
                        s.fail(
                            ErrorKind::TypeError,
                            "require vector form expects [namespace :as alias]"@,
                        )
                    },
                    _ => s.fail(
                        ErrorKind::TypeError,
                        "require vector form expects [namespace :as alias]"@,
                    ),
                }
            } else {
                s.fail(
                    ErrorKind::TypeError,
                    "require expects 'namespace or [namespace :as alias]"@,
                )
            },
            Form::List(q) => if q.len() == 2 {
                match (q[0], q[1]) {
                    (Form::Symbol(word), Form::Symbol(namespace)) => if word == "quote"@ {
                        load_namespace(s, namespace, None)
                    } else {
                        s.fail(ErrorKind::TypeError, "require expects a quoted symbol"@)
                    },
                    _ => s.fail(ErrorKind::TypeError, "require expects a quoted symbol"@),
                }
            } else {
                s.fail(
                    ErrorKind::TypeError,
                    "require expects 'namespace or [namespace :as alias]"@,
                )
            },
            Form::Symbol(name) => if name.len() > 0 && name[0] == '\'' {
                load_namespace(s, name.skip(1), None)
            } else {
                s.fail(
                    ErrorKind::TypeError,
                    "require expects 'namespace or [namespace :as alias]"@,
                )
            },
            _ => s.fail(
                ErrorKind::TypeError,
                "require expects 'namespace or [namespace :as alias]"@,
            ),
        }
    }
}

/// The natives that a function installed by `require` can see.
pub open spec fn essentials() -> Seq<Text> {
    seq![
        "+"@,
        "-"@,
        "*"@,
        "/"@,
        "="@,
        "<"@,
        ">"@,
        "<="@,
        ">="@,
        "not="@,
        "first"@,
        "rest"@,
        "cons"@,
        "list"@,
        "list?"@,
        "nil?"@,
        "empty?"@,
        "if"@,
        "do"@,
        "and"@,
        "or"@,
        "not"@,
        "true?"@,
        "false?"@,
        "print"@,
        "str"@,
        "count"@,
        "concat"@,
        "vector?"@,
        "symbol?"@,
        "number?"@,
    ]
}

/// A root frame with the first `n` of `wanted` that `env` binds.
pub open spec fn selection(env: Scope, wanted: Seq<Text>, n: nat) -> Scope
    decreases n,
{
    if n == 0 || n > wanted.len() {
        Scope::root()
    } else {
        let before = selection(env, wanted, (n - 1) as nat);
        match env.get(wanted[n - 1]) {
            Some(v) => before.set(wanted[n - 1], v),
            None => before,
        }
    }
}

/// Whether a `def` read from a namespace file is installed: only one of a
/// number, a string, a boolean or `nil`.
pub open spec fn is_constant(f: Form) -> bool {
    f is Number || f is Str || f is Bool || f is Nil
}

/// What `require` does with one form of a namespace file. A `defn` is
/// installed over the essential natives only, a `defmacro` over a snapshot
/// of the environment, a `def` where it binds a constant. Nothing is
/// evaluated, and every other form is passed over.
pub open spec fn install(env: Scope, form: Form) -> Result<Scope, Fault> {
    match form {
        Form::List(items) => if items.len() == 0 {
            Ok(env)
        } else {
            match items[0] {
                Form::Symbol(head) => if head == "defn"@ || head == "defmacro"@ {
                    let is_macro = head == "defmacro"@;
                    if items.len() != 4 {
                        Err(
                            Fault {
                                kind: ErrorKind::ArityError,
                                message: head + " requires exactly 3 arguments"@,
                            },
                        )
                    } else {
                        match items[1] {
                            Form::Symbol(name) => match parameters(
                                if is_macro {
                                    "Macro"@
                                } else {
                                    "Function"@
                                },
                                items[2],
                            ) {
                                Ok(params) => Ok(
                                    env.set_namespaced(
                                        name,
                                        closure(
                                            is_macro,
                                            params,
                                            items[3],
                                            if is_macro {
                                                env
                                            } else {
                                                selection(env, essentials(), essentials().len())
                                            },
                                        ),
                                    ),
                                ),
                                Err(e) => Err(e),
                            },
                            _ => Err(
                                Fault {
                                    kind: ErrorKind::TypeError,
                                    message: "First argument to "@ + head + " must be a symbol"@,
                                },
                            ),
                        }
                    }
                } else if head == "def"@ {
                    if items.len() != 3 {
                        Err(
                            Fault {
                                kind: ErrorKind::ArityError,
                                message: "def requires exactly 2 arguments"@,
                            },
                        )
                    } else {
                        match items[1] {
                            Form::Symbol(name) => if is_constant(items[2]) {
                                Ok(env.set_namespaced(name, items[2]))
                            } else {
                                Ok(env)
                            },
                            _ => Err(
                                Fault {
                                    kind: ErrorKind::TypeError,
                                    message: "First argument to def must be a symbol"@,
                                },
                            ),
                        }
                    }
                } else {
                    Ok(env)
                },
                _ => Ok(env),
            }
        },
        _ => Ok(env),
    }
}

/// How far installing the forms of a namespace file came.
pub ghost struct Installed {
    /// The environment after the forms that were installed.
    pub env: Scope,
    /// The fault that ended it, if one did.
    pub fault: Option<Fault>,
}

/// The first `n` of `forms` installed in order, up to the first fault.
pub open spec fn install_upto(env: Scope, forms: Seq<Form>, n: nat) -> Installed
    decreases n,
{
    if n == 0 || n > forms.len() {
        Installed { env, fault: None }
    } else {
        let before = install_upto(env, forms, (n - 1) as nat);
        if before.fault is Some {
            before
        } else {
            match install(before.env, forms[n - 1]) {
                Ok(after) => Installed { env: after, fault: None },
                Err(e) => Installed { env: before.env, fault: Some(e) },
            }
        }
    }
}

/// What the forms of a file, answered by the host, are used for.
pub open spec fn sourced(s: State, purpose: Intent, v: Form) -> State {
    match purpose {
        Intent::Load { path } => match v {
            Form::List(forms) => if forms.len() == 0 {
                s.to(Focus::Return(Form::Nil))
            } else {
                s.push(Cont::Each { each: Walk::Load(path), forms, next: 1 }).to(
                    Focus::Eval(forms[0]),
                )
            },
            _ => s.fail(ErrorKind::IOFailure, "No forms were given for '"@ + path + "'"@),
        },
        Intent::Require { namespace, alias, path } => match v {
            Form::List(forms) => {
                let installed = install_upto(s.env, forms, forms.len());
                match installed.fault {
                    None => required(
                        s.within(installed.env.add_loaded_namespace(namespace)),
                        namespace,
                        alias,
                    ),
                    Some(e) => s.within(installed.env).fail(
                        ErrorKind::NamespaceLoadFailure,
                        "Failed to load namespace '"@ + namespace + "': Error loading form in '"@
                            + path + "': "@ + e.message,
                    ),
                }
            },
            _ => s.fail(
                ErrorKind::NamespaceLoadFailure,
                "Failed to load namespace '"@ + namespace + "': No forms were given for '"@ + path
                    + "'"@,
            ),
        },
    }
}

/// The special form that `name` names, applied to the whole list `items`.
pub open spec fn special(s: State, name: Text, items: Seq<Form>) -> State {
    if name == "def"@ {
        def_form(s, items)
    } else if name == "defn"@ {
        defn_form(s, items, false)
    } else if name == "defmacro"@ {
        defn_form(s, items, true)
    } else if name == "if"@ {
        if_form(s, items)
    } else if name == "fn"@ {
        fn_form(s, items)
    } else if name == "quote"@ {
        quote_form(s, items)
    } else if name == "quasiquote"@ {
        quasiquote_form(s, items)
    } else if name == "macroexpand"@ {
        macroexpand_form(s, items)
    } else if name == "letrec"@ {
        letrec_form(s, items)
    } else if name == "let"@ {
        let_form(s, items)
    } else if name == "load"@ {
        load_form(s, items)
    } else if name == "do"@ {
        do_form(s, items)
    } else if name == "ns"@ {
        ns_form(s, items)
    } else if name == "require"@ {
        require_form(s, items)
    } else if name == "and"@ {
        logic_form(s, items, Walk::And)
    } else {
        logic_form(s, items, Walk::Or)
    }
}

} // verus!
