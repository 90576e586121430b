#![allow(dead_code)]
use cortado::{
    create_default_env, eval, number_spellings, read, read_all_forms, ArithOp, Env, ErrorKind,
    EvalError, Host, HostRequest, Number, Value,
};

struct TestHost {
    out: String,
    files: Vec<(String, String)>,
}

fn render(n: f64) -> String {
    if n.fract() == 0.0 && n.abs() < 1e15 {
        format!("{:.0}", n)
    } else {
        format!("{}", n)
    }
}

fn number(n: f64) -> Number {
    Number { bits: n.to_bits(), text: render(n) }
}

fn num(n: f64) -> Value {
    Value::Number(number(n))
}

fn read_forms(text: &str) -> Result<Vec<Value>, EvalError> {
    let mut table: Vec<(String, Number)> = Vec::new();
    for spelling in number_spellings(text) {
        if let Ok(n) = spelling.parse::<f64>() {
            table.push((spelling, number(n)));
        }
    }
    read_all_forms(text, &table)
}

fn read_one(text: &str) -> Result<Value, EvalError> {
    let mut table: Vec<(String, Number)> = Vec::new();
    for spelling in number_spellings(text) {
        if let Ok(n) = spelling.parse::<f64>() {
            table.push((spelling, number(n)));
        }
    }
    read(text, &table)
}

impl Host for TestHost {
    fn answer(&mut self, request: &HostRequest) -> Result<Value, EvalError> {
        match request {
            HostRequest::Arith { op, left, right } => {
                let a = f64::from_bits(left.bits);
                let b = f64::from_bits(right.bits);
                let r = match op {
                    ArithOp::Add => a + b,
                    ArithOp::Sub => a - b,
                    ArithOp::Mul => a * b,
                    ArithOp::Div => a / b,
                    ArithOp::Rem => a % b,
                };
                Ok(num(r))
            }
            HostRequest::Count { count } => Ok(num(*count as f64)),
            HostRequest::Emit { text } => {
                self.out.push_str(text);
                Ok(Value::Nil)
            }
            HostRequest::Source { path } => {
                for (name, content) in &self.files {
                    if name == path {
                        return match read_forms(content) {
                            Ok(forms) => Ok(Value::List(forms)),
                            Err(e) => Err(EvalError {
                                kind: ErrorKind::ParseError,
                                message: format!("Parse error in '{}': {}", path, e.message),
                            }),
                        };
                    }
                }
                Err(EvalError {
                    kind: ErrorKind::IOFailure,
                    message: format!("Failed to read file '{}': not found", path),
                })
            }
            HostRequest::Native { name, .. } => Err(EvalError {
                kind: ErrorKind::UndefinedSymbol,
                message: format!("No native procedure {}", name),
            }),
        }
    }
}

fn host() -> TestHost {
    TestHost { out: String::new(), files: Vec::new() }
}

fn run_with(host: &mut TestHost, env: &mut Env, text: &str) -> Result<Value, EvalError> {
    let mut last = Value::Nil;
    for form in read_forms(text)? {
        last = eval(&form, env, host)?;
    }
    Ok(last)
}

fn run(text: &str) -> Result<Value, EvalError> {
    let mut env = create_default_env();
    run_with(&mut host(), &mut env, text)
}

fn shown(text: &str) -> String {
    match run(text) {
        Ok(v) => v.to_text(),
        Err(e) => format!("error: {}", e.message),
    }
}

fn failure(text: &str) -> (ErrorKind, String) {
    match run(text) {
        Ok(v) => panic!("unexpected value {}", v.to_text()),
        Err(e) => (e.kind, e.message),
    }
}


#[test]
fn what_the_reader_gives_is_well_formed() {
    for text in ["{:a 1 :a 2 :b {:c 3 :c 4}}", "(a [b {:k {:k 1}}])", "{}", "nil"] {
        assert!(read_one(text).unwrap().is_well_formed(), "{}", text);
    }
}

#[test]
fn a_map_with_a_key_twice_is_not_well_formed() {
    let twice = Value::Dict(vec![("a".to_string(), num(1.0)), ("a".to_string(), num(2.0))]);
    assert!(!twice.is_well_formed());
    assert!(!Value::List(vec![Value::Nil, twice.clone()]).is_well_formed());
    assert!(!Value::Vector(vec![twice.clone()]).is_well_formed());
    assert!(!Value::Dict(vec![("k".to_string(), twice.clone())]).is_well_formed());
    let mut env = Env::new();
    assert!(env.is_well_formed());
    env.data.push(("x".to_string(), twice.clone()));
    assert!(!env.is_well_formed());
    let mut env = Env::new();
    env.data.push(("x".to_string(), Value::Nil));
    env.data.push(("x".to_string(), Value::Nil));
    assert!(!env.is_well_formed());
    let mut env = Env::new();
    env.loaded_namespaces.push("n".to_string());
    env.loaded_namespaces.push("n".to_string());
    assert!(!env.is_well_formed());
    let mut env = Env::new();
    env.namespace_aliases.push(("a".to_string(), "n".to_string()));
    env.namespace_aliases.push(("a".to_string(), "m".to_string()));
    assert!(!env.is_well_formed());
    let f = Value::Function(cortado::Function::UserDefined {
        params: vec![],
        body: Box::new(twice),
        env: Env::new(),
    });
    assert!(!f.is_well_formed());
    assert!(!Env::with_parent(env).is_well_formed());
}

#[test]
fn the_root_environment_is_well_formed() {
    assert!(create_default_env().is_well_formed());
    assert!(Env::new().is_well_formed());
}

#[test]
fn evaluation_keeps_the_data_well_formed() {
    let mut h = host();
    h.files.push(("std/m.lisp".to_string(), "(defn f [a] a) (def k 1) (defmacro g [x] x)".to_string()));
    h.files.push(("l.lisp".to_string(), "(def loaded {:a 1})".to_string()));
    let mut env = create_default_env();
    for text in [
        "(def m {:a 1 :b 2})",
        "(def m (assoc m :a 3))",
        "(def m (assoc m :c {:a 1}))",
        "(defn f [x] (let [y {:k x}] (fn [z] [x y z])))",
        "(def g (f 1))",
        "(g {:a 1 :b 2})",
        "(letrec [[a (fn [] (b))] [b (fn [] {:x 1})]] (a))",
        "(require [m :as mm])",
        "(require 'm)",
        "(load \"l.lisp\")",
        "(ns other)",
        "(def x (concat '(1) [{:a 1}]))",
        "(macroexpand '(when a b))",
        "`(a ~m)",
        "(apply (fn [a b] {:a a :b b}) '(1 2))",
        "((constantly {:a 1}) 0)",
    ] {
        let v = run_with(&mut h, &mut env, text).unwrap();
        assert!(v.is_well_formed(), "{}", text);
        assert!(env.is_well_formed(), "{}", text);
    }
}
