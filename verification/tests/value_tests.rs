#![allow(dead_code)]
use cortado::{
    create_default_env, eval, number_spellings, read, read_all_forms, ArithOp, Env, ErrorKind,
    EvalError, Host, HostRequest, Number, Value,
};

struct TestHost {
    out: String,
    files: Vec<(String, String)>,
}

fn render(n: f64) -> String {
    if n.fract() == 0.0 && n.abs() < 1e15 {
        format!("{:.0}", n)
    } else {
        format!("{}", n)
    }
}

fn number(n: f64) -> Number {
    Number { bits: n.to_bits(), text: render(n) }
}

fn num(n: f64) -> Value {
    Value::Number(number(n))
}

fn read_forms(text: &str) -> Result<Vec<Value>, EvalError> {
    let mut table: Vec<(String, Number)> = Vec::new();
    for spelling in number_spellings(text) {
        if let Ok(n) = spelling.parse::<f64>() {
            table.push((spelling, number(n)));
        }
    }
    read_all_forms(text, &table)
}

fn read_one(text: &str) -> Result<Value, EvalError> {
    let mut table: Vec<(String, Number)> = Vec::new();
    for spelling in number_spellings(text) {
        if let Ok(n) = spelling.parse::<f64>() {
            table.push((spelling, number(n)));
        }
    }
    read(text, &table)
}

impl Host for TestHost {
    fn answer(&mut self, request: &HostRequest) -> Result<Value, EvalError> {
        match request {
            HostRequest::Arith { op, left, right } => {
                let a = f64::from_bits(left.bits);
                let b = f64::from_bits(right.bits);
                let r = match op {
                    ArithOp::Add => a + b,
                    ArithOp::Sub => a - b,
                    ArithOp::Mul => a * b,
                    ArithOp::Div => a / b,
                    ArithOp::Rem => a % b,
                };
                Ok(num(r))
            }
            HostRequest::Count { count } => Ok(num(*count as f64)),
            HostRequest::Emit { text } => {
                self.out.push_str(text);
                Ok(Value::Nil)
            }
            HostRequest::Source { path } => {
                for (name, content) in &self.files {
                    if name == path {
                        return match read_forms(content) {
                            Ok(forms) => Ok(Value::List(forms)),
                            Err(e) => Err(EvalError {
                                kind: ErrorKind::ParseError,
                                message: format!("Parse error in '{}': {}", path, e.message),
                            }),
                        };
                    }
                }
                Err(EvalError {
                    kind: ErrorKind::IOFailure,
                    message: format!("Failed to read file '{}': not found", path),
                })
            }
            HostRequest::Native { name, .. } => Err(EvalError {
                kind: ErrorKind::UndefinedSymbol,
                message: format!("No native procedure {}", name),
            }),
        }
    }
}

fn host() -> TestHost {
    TestHost { out: String::new(), files: Vec::new() }
}

fn run_with(host: &mut TestHost, env: &mut Env, text: &str) -> Result<Value, EvalError> {
    let mut last = Value::Nil;
    for form in read_forms(text)? {
        last = eval(&form, env, host)?;
    }
    Ok(last)
}

fn run(text: &str) -> Result<Value, EvalError> {
    let mut env = create_default_env();
    run_with(&mut host(), &mut env, text)
}

fn shown(text: &str) -> String {
    match run(text) {
        Ok(v) => v.to_text(),
        Err(e) => format!("error: {}", e.message),
    }
}

fn failure(text: &str) -> (ErrorKind, String) {
    match run(text) {
        Ok(v) => panic!("unexpected value {}", v.to_text()),
        Err(e) => (e.kind, e.message),
    }
}


fn value(text: &str) -> Value {
    read_one(text).unwrap()
}

#[test]
fn equal_values_compare_equal() {
    assert!(value("(1 [2 {:a \"b\"}])") == value("( 1 [ 2 { :a \"b\" } ] )"));
    assert!(value("{:a 1 :b 2}") == value("{:b 2 :a 1}"));
    assert!(value("1") != value("2"));
    assert!(value("(1 2)") != value("[1 2]"));
    assert!(num(0.0) == num(-0.0));
    assert!(num(f64::NAN) != num(f64::NAN));
    assert!(Value::Nil == Value::Nil);
    assert!(Value::Nil != Value::Bool(false));
    let r = Value::IOResource(cortado::IOResource::Writer(1));
    assert!(r != r.clone());
}

#[test]
fn environments_and_functions_compare_by_their_parts() {
    let mut a = Env::new();
    let mut b = Env::new();
    assert!(a == b);
    a.set("x".to_string(), num(1.0));
    assert!(a != b);
    b.set("y".to_string(), num(2.0));
    b.set("x".to_string(), num(1.0));
    a.set("y".to_string(), num(2.0));
    assert!(a == b);
    a.add_loaded_namespace("n".to_string());
    a.add_loaded_namespace("m".to_string());
    b.add_loaded_namespace("m".to_string());
    assert!(a != b);
    b.add_loaded_namespace("n".to_string());
    assert!(a == b);
    a.add_alias("s".to_string(), "long".to_string());
    assert!(a != b);
    b.add_alias("s".to_string(), "other".to_string());
    assert!(a != b);
    b.add_alias("s".to_string(), "long".to_string());
    assert!(a == b);
    b.set_namespace("elsewhere".to_string());
    assert!(a != b);
    let child = Env::with_parent(a.clone());
    assert!(child != a);
    assert!(child == Env::with_parent(a.clone()));
    let f = cortado::Function::UserDefined {
        params: vec!["x".to_string()],
        body: Box::new(value("x")),
        env: a.clone(),
    };
    let g = cortado::Function::UserDefined {
        params: vec!["x".to_string()],
        body: Box::new(value("x")),
        env: b.clone(),
    };
    assert!(f == f.clone());
    assert!(f != g);
    let m = cortado::Function::Macro {
        params: vec!["x".to_string()],
        body: Box::new(value("x")),
        env: a.clone(),
    };
    assert!(f != m);
    assert!(
        cortado::Function::Native("first".to_string())
            == cortado::Function::Native("first".to_string())
    );
}

#[test]
fn hash_of_simple_values() {
    assert_eq!(Value::Nil.hash_code(), 3298534884633);
    assert_eq!(Value::Bool(false).hash_code(), 2199023256422);
    assert_eq!(Value::Bool(true).hash_code(), 2199023256423);
    assert_eq!(Value::Uninitialized.hash_code(), 12094627910321);
    assert_eq!(Value::List(vec![]).hash_code(), 5497558141055);
    assert_eq!(Value::Vector(vec![]).hash_code(), 6597069769266);
    assert_eq!(Value::Dict(vec![]).hash_code(), 7696581397477);
    assert_eq!(
        Value::Str(String::new()).hash_code(),
        (4u64.wrapping_mul(1099511628211)).wrapping_add(0xcbf29ce484222325)
    );
    let a = 0xcbf29ce484222325u64.wrapping_mul(1099511628211).wrapping_add('a' as u64);
    assert_eq!(
        Value::Symbol("a".to_string()).hash_code(),
        0u64.wrapping_mul(1099511628211).wrapping_add(a)
    );
    assert_eq!(
        Value::Keyword("a".to_string()).hash_code(),
        8u64.wrapping_mul(1099511628211).wrapping_add(a)
    );
}

#[test]
fn equal_values_hash_alike() {
    for (left, right) in [
        ("{:a 1 :b 2 :c [3]}", "{:c [3] :b 2 :a 1}"),
        ("{:a {:x 1 :y 2}}", "{\"a\" {:y 2 :x 1}}"),
        ("(1 2 (3))", "( 1  2 ( 3 ) )"),
        ("[\"s\" :k sym nil true]", "[\"s\", :k, sym, nil, true]"),
        ("1", "1.0"),
    ] {
        let a = value(left);
        let b = value(right);
        assert!(a == b);
        assert_eq!(a.hash_code(), b.hash_code(), "{} {}", left, right);
    }
    assert_eq!(num(0.0).hash_code(), num(-0.0).hash_code());
    let table = vec![
        ("1".to_string(), number(1.0)),
        ("one".to_string(), Number { bits: 1.0f64.to_bits(), text: "one".to_string() }),
    ];
    assert_eq!(
        Value::Number(table[0].1.clone()).hash_code(),
        Value::Number(table[1].1.clone()).hash_code()
    );
    let f = run("(fn [x] x)").unwrap();
    let g = run("(fn [y] (y))").unwrap();
    assert_eq!(f.hash_code(), g.hash_code());
    let twice = Value::Dict(vec![
        ("a".to_string(), num(1.0)),
        ("a".to_string(), num(2.0)),
    ]);
    let once = Value::Dict(vec![("a".to_string(), num(1.0))]);
    assert!(twice == once);
    assert_eq!(twice.hash_code(), once.hash_code());
}

#[test]
fn different_values_mostly_hash_apart() {
    let texts = [
        "nil", "true", "false", "0", "1", "-1", "0.5", "a", "b", ":a", "\"a\"", "()", "[]", "{}",
        "(1)", "[1]", "(1 2)", "(2 1)", "{:a 1}", "{:a 2}", "{:b 1}", "((1))",
    ];
    for (i, left) in texts.iter().enumerate() {
        for right in &texts[i + 1..] {
            assert_ne!(value(left).hash_code(), value(right).hash_code(), "{} {}", left, right);
        }
    }
}

#[test]
fn clones_are_deep_and_equal() {
    let v = value("(a [1 {:k \"s\"}] nil)");
    let w = v.clone();
    assert!(v == w);
    assert_eq!(v.to_text(), w.to_text());
    let f = run("(let [x 1] (fn [y] (+ x y)))").unwrap();
    let g = f.clone();
    assert!(f == g);
    let e = EvalError { kind: ErrorKind::TypeError, message: "m".to_string() };
    let c = e.clone();
    assert_eq!(c.kind, ErrorKind::TypeError);
    assert_eq!(c.message, "m");
    let n = number(2.5).clone();
    assert_eq!(n.text, "2.5");
    assert_eq!(n.bits, 2.5f64.to_bits());
}

#[test]
fn numbers_of_the_library() {
    assert_eq!(Number::zero().bits, 0.0f64.to_bits());
    assert_eq!(Number::zero().text, "0");
    assert_eq!(Number::one().bits, 1.0f64.to_bits());
    assert_eq!(Number::one().text, "1");
    assert_eq!(Number::minus_one().bits, (-1.0f64).to_bits());
    assert_eq!(Number::minus_one().text, "-1");
    for x in [0.0, -0.0, 1.5, -1.5, f64::INFINITY, f64::NEG_INFINITY, -1e-300] {
        let a = number(x).abs();
        assert_eq!(a.bits, x.abs().to_bits(), "{}", x);
        assert_eq!(a.text, render(x.abs()), "{}", x);
    }
}
