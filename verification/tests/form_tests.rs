#![allow(dead_code)]
use cortado::{
    create_default_env, eval, number_spellings, read, read_all_forms, ArithOp, Env, ErrorKind,
    EvalError, Host, HostRequest, Number, Value,
};

struct TestHost {
    out: String,
    files: Vec<(String, String)>,
}

fn render(n: f64) -> String {
    if n.fract() == 0.0 && n.abs() < 1e15 {
        format!("{:.0}", n)
    } else {
        format!("{}", n)
    }
}

fn number(n: f64) -> Number {
    Number { bits: n.to_bits(), text: render(n) }
}

fn num(n: f64) -> Value {
    Value::Number(number(n))
}

fn read_forms(text: &str) -> Result<Vec<Value>, EvalError> {
    let mut table: Vec<(String, Number)> = Vec::new();
    for spelling in number_spellings(text) {
        if let Ok(n) = spelling.parse::<f64>() {
            table.push((spelling, number(n)));
        }
    }
    read_all_forms(text, &table)
}

fn read_one(text: &str) -> Result<Value, EvalError> {
    let mut table: Vec<(String, Number)> = Vec::new();
    for spelling in number_spellings(text) {
        if let Ok(n) = spelling.parse::<f64>() {
            table.push((spelling, number(n)));
        }
    }
    read(text, &table)
}

impl Host for TestHost {
    fn answer(&mut self, request: &HostRequest) -> Result<Value, EvalError> {
        match request {
            HostRequest::Arith { op, left, right } => {
                let a = f64::from_bits(left.bits);
                let b = f64::from_bits(right.bits);
                let r = match op {
                    ArithOp::Add => a + b,
                    ArithOp::Sub => a - b,
                    ArithOp::Mul => a * b,
                    ArithOp::Div => a / b,
                    ArithOp::Rem => a % b,
                };
                Ok(num(r))
            }
            HostRequest::Count { count } => Ok(num(*count as f64)),
            HostRequest::Emit { text } => {
                self.out.push_str(text);
                Ok(Value::Nil)
            }
            HostRequest::Source { path } => {
                for (name, content) in &self.files {
                    if name == path {
                        return match read_forms(content) {
                            Ok(forms) => Ok(Value::List(forms)),
                            Err(e) => Err(EvalError {
                                kind: ErrorKind::ParseError,
                                message: format!("Parse error in '{}': {}", path, e.message),
                            }),
                        };
                    }
                }
                Err(EvalError {
                    kind: ErrorKind::IOFailure,
                    message: format!("Failed to read file '{}': not found", path),
                })
            }
            HostRequest::Native { name, .. } => Err(EvalError {
                kind: ErrorKind::UndefinedSymbol,
                message: format!("No native procedure {}", name),
            }),
        }
    }
}

fn host() -> TestHost {
    TestHost { out: String::new(), files: Vec::new() }
}

fn run_with(host: &mut TestHost, env: &mut Env, text: &str) -> Result<Value, EvalError> {
    let mut last = Value::Nil;
    for form in read_forms(text)? {
        last = eval(&form, env, host)?;
    }
    Ok(last)
}

fn run(text: &str) -> Result<Value, EvalError> {
    let mut env = create_default_env();
    run_with(&mut host(), &mut env, text)
}

fn shown(text: &str) -> String {
    match run(text) {
        Ok(v) => v.to_text(),
        Err(e) => format!("error: {}", e.message),
    }
}

fn failure(text: &str) -> (ErrorKind, String) {
    match run(text) {
        Ok(v) => panic!("unexpected value {}", v.to_text()),
        Err(e) => (e.kind, e.message),
    }
}


#[test]
fn def_binds_in_the_current_namespace() {
    let mut env = create_default_env();
    let mut h = host();
    assert_eq!(run_with(&mut h, &mut env, "(def x (+ 1 2))").unwrap().to_text(), "3");
    assert_eq!(env.get("user/x").unwrap().to_text(), "3");
    assert!(env.get("x").is_none());
    assert_eq!(run_with(&mut h, &mut env, "x").unwrap().to_text(), "3");
    assert_eq!(run_with(&mut h, &mut env, "(ns mine) (def y 1) y").unwrap().to_text(), "1");
    assert_eq!(env.get("mine/y").unwrap().to_text(), "1");
    assert_eq!(run_with(&mut h, &mut env, "x").unwrap().to_text(), "3");
    assert_eq!(run_with(&mut h, &mut env, "(def other/z 5) other/z").unwrap().to_text(), "5");
}

#[test]
fn def_errors() {
    assert_eq!(failure("(def x)"), (ErrorKind::ArityError, "def requires exactly 2 arguments".to_string()));
    assert_eq!(failure("(def x 1 2)"), (ErrorKind::ArityError, "def requires exactly 2 arguments".to_string()));
    assert_eq!(failure("(def 1 2)"), (ErrorKind::TypeError, "First argument to def must be a symbol".to_string()));
    assert_eq!(failure("(def x y)").0, ErrorKind::UndefinedSymbol);
}

#[test]
fn defn_and_fn() {
    assert_eq!(shown("(defn double [n] (* n 2)) (double 21)"), "42");
    assert_eq!(shown("(defn none [] 7) (none)"), "7");
    assert_eq!(shown("((fn [a b] (- a b)) 5 3)"), "2");
    assert_eq!(failure("(defn f [n])"), (ErrorKind::ArityError, "defn requires exactly 3 arguments".to_string()));
    assert_eq!(failure("(defn 1 [n] n)"), (ErrorKind::TypeError, "First argument to defn must be a symbol".to_string()));
    assert_eq!(failure("(defn f (n) n)"), (ErrorKind::TypeError, "Function parameters must be a vector".to_string()));
    assert_eq!(failure("(defn f [1] n)"), (ErrorKind::TypeError, "Function parameters must be symbols".to_string()));
    assert_eq!(failure("(fn [n])"), (ErrorKind::ArityError, "fn requires exactly 2 arguments".to_string()));
    assert_eq!(failure("(fn n n)"), (ErrorKind::TypeError, "Function parameters must be a vector".to_string()));
    assert_eq!(failure("(fn [:k] n)"), (ErrorKind::TypeError, "Function parameters must be symbols".to_string()));
}

#[test]
fn arity_of_calls() {
    assert_eq!(failure("((fn [a] a))"), (ErrorKind::ArityError, "Function expects 1 arguments, got 0".to_string()));
    assert_eq!(failure("((fn [] 1) 1 2)"), (ErrorKind::ArityError, "Function expects 0 arguments, got 2".to_string()));
    assert_eq!(
        failure("(defmacro m [a b] a) (m 1)"),
        (ErrorKind::ArityError, "Macro expects 2 arguments, got 1".to_string())
    );
    assert_eq!(
        failure("((fn [a b c d e f g h i j k] a) 1 2 3 4 5 6 7 8 9 10 11 12)"),
        (ErrorKind::ArityError, "Function expects 11 arguments, got 12".to_string())
    );
}

#[test]
fn closures_hold_a_snapshot() {
    assert_eq!(shown("(def x 1) (defn f [] x) (def x 2) (f)"), "1");
    assert_eq!(shown("(let [a 5] ((fn [b] (+ a b)) 1))"), "6");
    assert_eq!(shown("(defn adder [a] (fn [b] (+ a b))) ((adder 3) 4)"), "7");
}

#[test]
fn parameters_win_over_the_self_reference() {
    assert_eq!(shown("(defn f [f] f) (f 3)"), "3");
}

#[test]
fn self_reference_by_short_name() {
    assert_eq!(
        shown("(ns m) (defn count-down [n] (if (= n 0) :done (count-down (- n 1)))) (ns user) (m/count-down 3)"),
        ":done"
    );
}

#[test]
fn if_form() {
    assert_eq!(shown("(if true 1 2)"), "1");
    assert_eq!(shown("(if (= 1 2) (undefined) :no)"), ":no");
    assert_eq!(failure("(if true 1)"), (ErrorKind::ArityError, "if requires exactly 3 arguments".to_string()));
    assert_eq!(failure("(if)"), (ErrorKind::ArityError, "if requires exactly 3 arguments".to_string()));
}

#[test]
fn do_form() {
    assert_eq!(shown("(do 1 2 3)"), "3");
    assert_eq!(shown("(do (def a 1) (+ a 1))"), "2");
    assert_eq!(shown("(do 1)"), "1");
    assert_eq!(failure("(do)"), (ErrorKind::ArityError, "do requires at least 1 argument".to_string()));
    assert_eq!(failure("(do 1 (oops) 3)").0, ErrorKind::UndefinedSymbol);
}

#[test]
fn and_or_forms() {
    assert_eq!(shown("(and)"), "true");
    assert_eq!(shown("(or)"), "nil");
    assert_eq!(shown("(and 1 2 3)"), "3");
    assert_eq!(shown("(and 1 nil 3)"), "nil");
    assert_eq!(shown("(and 1 2 false)"), "false");
    assert_eq!(shown("(or false nil)"), "nil");
    assert_eq!(shown("(or nil false)"), "false");
    assert_eq!(shown("(or false 2 3)"), "2");
    assert_eq!(shown("(and 1 (do (def seen 2) 1) 1) seen"), "2");
    assert_eq!(shown("(or 1)"), "1");
    assert_eq!(shown("(and nil)"), "nil");
}

#[test]
fn let_form() {
    assert_eq!(shown("(let [] 5)"), "5");
    assert_eq!(shown("(let [x 1] x)"), "1");
    assert_eq!(shown("(let [x 1 x (+ x 1)] x)"), "2");
    assert_eq!(shown("(def x 9) (let [x 1] x) x"), "9");
    assert_eq!(failure("(let [x 1] (def inner 5)) inner").0, ErrorKind::UndefinedSymbol);
    assert_eq!(failure("(let [x 1])"), (ErrorKind::ArityError, "let requires exactly 2 arguments".to_string()));
    assert_eq!(failure("(let (x 1) x)"), (ErrorKind::TypeError, "let bindings must be a vector".to_string()));
    assert_eq!(
        failure("(let [x] x)"),
        (ErrorKind::ArityError, "let bindings must have an even number of elements".to_string())
    );
    assert_eq!(failure("(let [1 2] 3)"), (ErrorKind::TypeError, "Binding names must be symbols".to_string()));
    assert_eq!(failure("(let [x 1 2 3] x)"), (ErrorKind::TypeError, "Binding names must be symbols".to_string()));
}

#[test]
fn letrec_form() {
    assert_eq!(shown("(letrec [[x 10]] x)"), "10");
    assert_eq!(shown("(letrec [] 1)"), "1");
    assert_eq!(shown("(letrec [[a 1] [b (+ a 1)]] b)"), "2");
    assert_eq!(
        shown("(letrec [[fact (fn [n] (if (= n 0) 1 (* n (fact (- n 1)))))]] (fact 5))"),
        "120"
    );
    assert_eq!(
        shown("(letrec [[a (fn [n] (if (= n 0) :a (b (- n 1))))] [b (fn [n] (if (= n 0) :b (c (- n 1))))] [c (fn [n] (if (= n 0) :c (a (- n 1))))]] (a 7))"),
        ":b"
    );
    assert_eq!(shown("(letrec [[a b] [b 1]] a)"), "#<uninitialized>");
    assert_eq!(failure("(letrec [[a 1]])"), (ErrorKind::ArityError, "letrec requires exactly 2 arguments".to_string()));
    assert_eq!(failure("(letrec 1 2)"), (ErrorKind::TypeError, "letrec bindings must be a vector".to_string()));
    assert_eq!(failure("(letrec [a 1] 2)"), (ErrorKind::TypeError, "Each binding must be a vector".to_string()));
    assert_eq!(
        failure("(letrec [[a]] 2)"),
        (ErrorKind::TypeError, "Each binding must be a vector of [name value]".to_string())
    );
    assert_eq!(failure("(letrec [[1 2]] 2)"), (ErrorKind::TypeError, "Binding name must be a symbol".to_string()));
    assert_eq!(
        failure("(letrec [[a (oops)] [1 2]] 2)"),
        (ErrorKind::TypeError, "Binding name must be a symbol".to_string())
    );
}

#[test]
fn uninitialized_value_cannot_be_evaluated() {
    let mut env = create_default_env();
    let e = eval(&Value::Uninitialized, &mut env, &mut host()).unwrap_err();
    assert_eq!(e.kind, ErrorKind::UninitializedAccess);
    assert_eq!(e.message, "Cannot evaluate uninitialized value");
}

#[test]
fn quote_and_quasiquote() {
    assert_eq!(shown("(quote x)"), "x");
    assert_eq!(failure("(quote)"), (ErrorKind::ArityError, "quote requires exactly 1 argument".to_string()));
    assert_eq!(failure("(quote a b)"), (ErrorKind::ArityError, "quote requires exactly 1 argument".to_string()));
    assert_eq!(shown("(quasiquote (a b))"), "(a b)");
    assert_eq!(shown("(def x 5) `(a ~x [~x (b ~(+ x 1))] {:k ~x})"), "(a 5 [5 (b 6)] {:k (unquote x)})");
    assert_eq!(shown("`~(+ 1 2)"), "3");
    assert_eq!(shown("`()"), "()");
    assert_eq!(shown("`x"), "x");
    assert_eq!(failure("(quasiquote)"), (ErrorKind::ArityError, "quasiquote requires exactly 1 argument".to_string()));
    assert_eq!(failure("`(a (unquote))"), (ErrorKind::ArityError, "unquote requires exactly 1 argument".to_string()));
    assert_eq!(failure("`(a (unquote 1 2))"), (ErrorKind::ArityError, "unquote requires exactly 1 argument".to_string()));
    assert_eq!(failure("`(a ~nowhere)").0, ErrorKind::UndefinedSymbol);
}

#[test]
fn macros_get_their_arguments_unevaluated() {
    assert_eq!(shown("(defmacro first-form [a b] `(quote ~a)) (first-form (oops 1) 2)"), "(oops 1)");
    assert_eq!(shown("(when true 5)"), "5");
    assert_eq!(shown("(when false (oops))"), "nil");
    assert_eq!(shown("(unless false 5)"), "5");
    assert_eq!(shown("(unless true (oops))"), "nil");
    assert_eq!(shown("(defmacro twice [x] `(do ~x ~x)) (def n 0) (twice (def n (+ n 1))) n"), "2");
    assert_eq!(failure("(defmacro m [x])"), (ErrorKind::ArityError, "defmacro requires exactly 3 arguments".to_string()));
    assert_eq!(failure("(defmacro 1 [x] x)"), (ErrorKind::TypeError, "First argument to defmacro must be a symbol".to_string()));
    assert_eq!(failure("(defmacro m x x)"), (ErrorKind::TypeError, "Macro parameters must be a vector".to_string()));
    assert_eq!(failure("(defmacro m [1] x)"), (ErrorKind::TypeError, "Macro parameters must be symbols".to_string()));
}

#[test]
fn a_macro_value_cannot_be_called() {
    assert_eq!(
        failure("(defmacro m [x] x) ((do m) 1)"),
        (ErrorKind::TypeError, "Macros should be expanded before evaluation".to_string())
    );
}

#[test]
fn expansion_is_evaluated_where_the_call_stands() {
    assert_eq!(shown("(defmacro get-x [] (quote x)) (let [x 7] (get-x))"), "7");
}

#[test]
fn macroexpand_form() {
    assert_eq!(shown("(defmacro unless2 [c b] `(if ~c nil ~b)) (macroexpand '(unless2 false 42))"), "(if false nil 42)");
    assert_eq!(shown("(macroexpand '(when a b))"), "(if a b nil)");
    assert_eq!(shown("(macroexpand '(unless (f x) [y condition]))"), "(if (f x) nil [y condition])");
    assert_eq!(shown("(macroexpand '(+ 1 2))"), "(+ 1 2)");
    assert_eq!(shown("(macroexpand 5)"), "5");
    assert_eq!(shown("(macroexpand '())"), "()");
    assert_eq!(shown("(macroexpand (when a b))"), "(if a b nil)");
    assert_eq!(failure("(macroexpand)"), (ErrorKind::ArityError, "macroexpand requires exactly 1 argument".to_string()));
    assert_eq!(failure("(macroexpand '(when a))"), (ErrorKind::ArityError, "Macro expects 2 arguments, got 1".to_string()));
    assert_eq!(shown("(defmacro dup [x x] (list x x)) (macroexpand '(dup 1 2))"), "(list 2 2)");
}

#[test]
fn macroexpand_function() {
    let env = create_default_env();
    let form = read_one("(when (ready) (go))").unwrap();
    let expanded = cortado::macroexpand(&form, &env, &mut host()).unwrap();
    assert_eq!(expanded.to_text(), "(if (ready) (go) nil)");
    let plain = read_one("(first x)").unwrap();
    assert_eq!(cortado::macroexpand(&plain, &env, &mut host()).unwrap().to_text(), "(first x)");
    let mut env = env;
    run_with(&mut host(), &mut env, "(defmacro add1 [x] `(+ ~x ~(+ 0 1)))").unwrap();
    let form = read_one("(add1 y)").unwrap();
    assert_eq!(cortado::macroexpand(&form, &env, &mut host()).unwrap().to_text(), "(+ y 1)");
}

#[test]
fn ns_form() {
    assert_eq!(shown("(ns my.space)"), "my.space");
    assert_eq!(failure("(ns)"), (ErrorKind::ArityError, "ns requires exactly 1 argument".to_string()));
    assert_eq!(failure("(ns \"s\")"), (ErrorKind::TypeError, "ns requires a symbol argument".to_string()));
    let mut env = create_default_env();
    run_with(&mut host(), &mut env, "(ns a.b)").unwrap();
    assert_eq!(env.get_namespace(), "a.b");
}

#[test]
fn calls() {
    assert_eq!(shown("()"), "()");
    assert_eq!(shown("(first (list 1 2))"), "1");
    assert_eq!(shown("((if true first rest) (list 1 2))"), "1");
    assert_eq!(failure("(1 2)"), (ErrorKind::TypeError, "Cannot call non-function: 1".to_string()));
    assert_eq!(failure("(\"f\")"), (ErrorKind::TypeError, "Cannot call non-function: \"f\"".to_string()));
    assert_eq!(failure("(nil)"), (ErrorKind::TypeError, "Cannot call non-function: nil".to_string()));
    assert_eq!(failure("(f 1)"), (ErrorKind::UndefinedSymbol, "Undefined symbol: f".to_string()));
    assert_eq!(failure("(first (oops))").0, ErrorKind::UndefinedSymbol);
}

#[test]
fn keywords_as_accessors() {
    assert_eq!(shown("(:b {:a 1 :b 2})"), "2");
    assert_eq!(shown("(:c {:a 1})"), "nil");
    assert_eq!(shown("(:a {\"a\" 1})"), "1");
    assert_eq!(
        failure("(:a)"),
        (ErrorKind::ArityError, "Keyword as function requires exactly 1 argument".to_string())
    );
    assert_eq!(
        failure("(:a {} {})"),
        (ErrorKind::ArityError, "Keyword as function requires exactly 1 argument".to_string())
    );
    assert_eq!(
        failure("(:a [1])"),
        (ErrorKind::TypeError, "Keyword as function requires a map argument".to_string())
    );
}

#[test]
fn vectors_and_maps_evaluate_their_items() {
    assert_eq!(shown("(def x 2) [x (+ x 1) [x]]"), "[2 3 [2]]");
    assert_eq!(shown("(def x 2) {:a x :b {:c (+ x 1)}}"), "{:a 2 :b {:c 3}}");
    assert_eq!(failure("[1 (oops)]").0, ErrorKind::UndefinedSymbol);
}

#[test]
fn load_evaluates_every_form() {
    let mut h = host();
    h.files.push(("lib.lisp".to_string(), "(def a 1)\n(def b (+ a 1))\n(+ a b)".to_string()));
    h.files.push(("empty.lisp".to_string(), "; nothing".to_string()));
    h.files.push(("bad.lisp".to_string(), "(def a 1) (oops)".to_string()));
    h.files.push(("broken.lisp".to_string(), "(def a".to_string()));
    let mut env = create_default_env();
    assert_eq!(run_with(&mut h, &mut env, "(load \"lib.lisp\")").unwrap().to_text(), "3");
    assert_eq!(run_with(&mut h, &mut env, "b").unwrap().to_text(), "2");
    assert_eq!(run_with(&mut h, &mut env, "(load (str \"empty\" \".lisp\"))").unwrap().to_text(), "nil");
    let e = run_with(&mut h, &mut env, "(load \"bad.lisp\")").unwrap_err();
    assert_eq!(e.kind, ErrorKind::UndefinedSymbol);
    assert_eq!(e.message, "Error evaluating expression in 'bad.lisp': Undefined symbol: oops");
    let e = run_with(&mut h, &mut env, "(load \"broken.lisp\")").unwrap_err();
    assert_eq!(e.kind, ErrorKind::ParseError);
    assert_eq!(e.message, "Parse error in 'broken.lisp': Unterminated list");
    let e = run_with(&mut h, &mut env, "(load \"missing.lisp\")").unwrap_err();
    assert_eq!(e.kind, ErrorKind::IOFailure);
    assert_eq!(e.message, "Failed to read file 'missing.lisp': not found");
    let e = run_with(&mut h, &mut env, "(load 5)").unwrap_err();
    assert_eq!((e.kind, e.message.as_str()), (ErrorKind::TypeError, "load requires a string filename"));
    let e = run_with(&mut h, &mut env, "(load)").unwrap_err();
    assert_eq!((e.kind, e.message.as_str()), (ErrorKind::ArityError, "load requires exactly 1 argument"));
}

#[test]
fn require_installs_definitions() {
    let mut h = host();
    h.files.push((
        "std/my/tools.lisp".to_string(),
        "(ns my.tools)\n(def limit 10)\n(def later (+ 1 2))\n(defn twice [n] (* n 2))\n(defmacro skip [x] nil)\n(print \"not run\")".to_string(),
    ));
    h.files.push(("std/bad.lisp".to_string(), "(defn f)".to_string()));
    let mut env = create_default_env();
    assert_eq!(run_with(&mut h, &mut env, "(require 'my.tools)").unwrap().to_text(), "my.tools");
    assert!(env.is_namespace_loaded("my.tools"));
    assert_eq!(env.get_namespace(), "user");
    assert_eq!(h.out, "");
    assert_eq!(run_with(&mut h, &mut env, "limit").unwrap().to_text(), "10");
    assert_eq!(run_with(&mut h, &mut env, "(twice 4)").unwrap().to_text(), "8");
    assert_eq!(run_with(&mut h, &mut env, "(skip (oops))").unwrap().to_text(), "nil");
    assert!(run_with(&mut h, &mut env, "later").is_err());
    h.files.clear();
    assert_eq!(run_with(&mut h, &mut env, "(require 'my.tools)").unwrap().to_text(), "my.tools");
    assert_eq!(run_with(&mut h, &mut env, "(require [my.tools :as t])").unwrap().to_text(), "my.tools");
    assert_eq!(env.resolve_alias("t").map(|s| s.as_str()), Some("my.tools"));
    let e = run_with(&mut h, &mut env, "(require 'nowhere.at.all)").unwrap_err();
    assert_eq!(e.kind, ErrorKind::NamespaceLoadFailure);
    assert_eq!(
        e.message,
        "Failed to load namespace 'nowhere.at.all': Failed to read file 'std/nowhere/at/all.lisp': not found"
    );
    assert!(!env.is_namespace_loaded("nowhere.at.all"));
}

#[test]
fn require_reports_a_bad_form() {
    let mut h = host();
    h.files.push(("std/bad.lisp".to_string(), "(def good 1) (defn f) (def unseen 2)".to_string()));
    let mut env = create_default_env();
    let e = run_with(&mut h, &mut env, "(require 'bad)").unwrap_err();
    assert_eq!(e.kind, ErrorKind::NamespaceLoadFailure);
    assert_eq!(
        e.message,
        "Failed to load namespace 'bad': Error loading form in 'std/bad.lisp': defn requires exactly 3 arguments"
    );
    assert!(!env.is_namespace_loaded("bad"));
    assert!(env.get("user/good").is_some());
    assert!(env.get("user/unseen").is_none());
}

#[test]
fn required_functions_see_the_essential_natives_only() {
    let mut h = host();
    h.files.push((
        "std/m.lisp".to_string(),
        "(defn plus [a b] (+ a b)) (defn squared [a] (square a))".to_string(),
    ));
    let mut env = create_default_env();
    run_with(&mut h, &mut env, "(require [m :as mm])").unwrap();
    assert_eq!(run_with(&mut h, &mut env, "(plus 1 2)").unwrap().to_text(), "3");
    let e = run_with(&mut h, &mut env, "(squared 2)").unwrap_err();
    assert_eq!(e.message, "Undefined symbol: square");
}

#[test]
fn calls_through_an_alias() {
    let mut h = host();
    h.files.push((
        "std/deep/math.lisp".to_string(),
        "(ns deep.math) (defn fact [n] (if (= n 0) 1 (* n (fact (- n 1)))))".to_string(),
    ));
    let mut env = create_default_env();
    run_with(&mut h, &mut env, "(require [deep.math :as dm])").unwrap();
    assert_eq!(run_with(&mut h, &mut env, "(def deep.math/fact user/fact) (dm/fact 5)").unwrap().to_text(), "120");
}

#[test]
fn require_errors() {
    assert_eq!(failure("(require)"), (ErrorKind::ArityError, "require requires exactly 1 argument".to_string()));
    assert_eq!(
        failure("(require [a :as])"),
        (ErrorKind::TypeError, "require expects 'namespace or [namespace :as alias]".to_string())
    );
    assert_eq!(
        failure("(require [a :like b])"),
        (ErrorKind::TypeError, "require vector form expects [namespace :as alias]".to_string())
    );
    assert_eq!(
        failure("(require [\"a\" :as b])"),
        (ErrorKind::TypeError, "require vector form expects [namespace :as alias]".to_string())
    );
    assert_eq!(
        failure("(require (list a))"),
        (ErrorKind::TypeError, "require expects a quoted symbol".to_string())
    );
    assert_eq!(
        failure("(require '\"a\")"),
        (ErrorKind::TypeError, "require expects a quoted symbol".to_string())
    );
    assert_eq!(
        failure("(require a)"),
        (ErrorKind::TypeError, "require expects 'namespace or [namespace :as alias]".to_string())
    );
    assert_eq!(
        failure("(require 5)"),
        (ErrorKind::TypeError, "require expects 'namespace or [namespace :as alias]".to_string())
    );
}
