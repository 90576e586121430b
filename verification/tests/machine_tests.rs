#![allow(dead_code)]
use cortado::{
    create_default_env, eval, number_spellings, read, read_all_forms, ArithOp, Control, Env,
    ErrorKind, EvalError, Frame, Host, HostRequest, Machine, Number, Value,
};

struct TestHost {
    out: String,
    files: Vec<(String, String)>,
}

fn render(n: f64) -> String {
    if n.fract() == 0.0 && n.abs() < 1e15 {
        format!("{:.0}", n)
    } else {
        format!("{}", n)
    }
}

fn number(n: f64) -> Number {
    Number { bits: n.to_bits(), text: render(n) }
}

fn num(n: f64) -> Value {
    Value::Number(number(n))
}

fn read_forms(text: &str) -> Result<Vec<Value>, EvalError> {
    let mut table: Vec<(String, Number)> = Vec::new();
    for spelling in number_spellings(text) {
        if let Ok(n) = spelling.parse::<f64>() {
            table.push((spelling, number(n)));
        }
    }
    read_all_forms(text, &table)
}

fn read_one(text: &str) -> Result<Value, EvalError> {
    let mut table: Vec<(String, Number)> = Vec::new();
    for spelling in number_spellings(text) {
        if let Ok(n) = spelling.parse::<f64>() {
            table.push((spelling, number(n)));
        }
    }
    read(text, &table)
}

impl Host for TestHost {
    fn answer(&mut self, request: &HostRequest) -> Result<Value, EvalError> {
        match request {
            HostRequest::Arith { op, left, right } => {
                let a = f64::from_bits(left.bits);
                let b = f64::from_bits(right.bits);
                let r = match op {
                    ArithOp::Add => a + b,
                    ArithOp::Sub => a - b,
                    ArithOp::Mul => a * b,
                    ArithOp::Div => a / b,
                    ArithOp::Rem => a % b,
                };
                Ok(num(r))
            }
            HostRequest::Count { count } => Ok(num(*count as f64)),
            HostRequest::Emit { text } => {
                self.out.push_str(text);
                Ok(Value::Nil)
            }
            HostRequest::Source { path } => {
                for (name, content) in &self.files {
                    if name == path {
                        return match read_forms(content) {
                            Ok(forms) => Ok(Value::List(forms)),
                            Err(e) => Err(EvalError {
                                kind: ErrorKind::ParseError,
                                message: format!("Parse error in '{}': {}", path, e.message),
                            }),
                        };
                    }
                }
                Err(EvalError {
                    kind: ErrorKind::IOFailure,
                    message: format!("Failed to read file '{}': not found", path),
                })
            }
            HostRequest::Native { name, .. } => Err(EvalError {
                kind: ErrorKind::UndefinedSymbol,
                message: format!("No native procedure {}", name),
            }),
        }
    }
}

fn host() -> TestHost {
    TestHost { out: String::new(), files: Vec::new() }
}

fn run_with(host: &mut TestHost, env: &mut Env, text: &str) -> Result<Value, EvalError> {
    let mut last = Value::Nil;
    for form in read_forms(text)? {
        last = eval(&form, env, host)?;
    }
    Ok(last)
}

fn run(text: &str) -> Result<Value, EvalError> {
    let mut env = create_default_env();
    run_with(&mut host(), &mut env, text)
}

fn shown(text: &str) -> String {
    match run(text) {
        Ok(v) => v.to_text(),
        Err(e) => format!("error: {}", e.message),
    }
}

fn failure(text: &str) -> (ErrorKind, String) {
    match run(text) {
        Ok(v) => panic!("unexpected value {}", v.to_text()),
        Err(e) => (e.kind, e.message),
    }
}


fn steps_to_rest(m: Machine, limit: usize) -> (Machine, usize) {
    let mut m = m;
    let mut n = 0;
    while !m.is_finished() && m.request().is_none() && n < limit {
        m = m.step();
        n += 1;
    }
    (m, n)
}

#[test]
fn an_atom_takes_one_step() {
    let m = Machine::start(num(5.0), Env::new());
    assert!(!m.is_finished());
    let m = m.step();
    assert!(m.is_finished());
    let (r, env) = m.finish();
    assert_eq!(r.unwrap().to_text(), "5");
    assert!(env.data.is_empty());
}

#[test]
fn a_finished_machine_stays() {
    let m = Machine::start(Value::Nil, Env::new()).step();
    assert!(m.is_finished());
    let m = m.step().step();
    assert!(m.is_finished());
    assert!(matches!(m.control, Control::Return(Value::Nil)));
    let m = Machine::start(Value::Uninitialized, Env::new()).step().step();
    assert!(m.is_finished());
    assert!(matches!(&m.control, Control::Raise(e) if e.kind == ErrorKind::UninitializedAccess));
}

#[test]
fn arithmetic_is_asked_of_the_host() {
    let form = read_one("(+ 1.5 2.5 3.5)").unwrap();
    let (m, _) = steps_to_rest(Machine::start(form, create_default_env()), 100);
    match m.request() {
        Some(HostRequest::Arith { op, left, right }) => {
            assert_eq!(*op, ArithOp::Add);
            assert_eq!(left.bits, 0.0f64.to_bits());
            assert_eq!(left.text, "0");
            assert_eq!(right.bits, 1.5f64.to_bits());
        }
        other => panic!("unexpected request {:?}", other),
    }
    let m = m.step();
    assert!(m.request().is_some());
    let (m, _) = steps_to_rest(m.answer(Ok(num(1.5))), 100);
    match m.request() {
        Some(HostRequest::Arith { op, left, right }) => {
            assert_eq!(*op, ArithOp::Add);
            assert_eq!(left.bits, 1.5f64.to_bits());
            assert_eq!(right.bits, 2.5f64.to_bits());
        }
        other => panic!("unexpected request {:?}", other),
    }
    let (m, _) = steps_to_rest(m.answer(Ok(num(30.25))), 100);
    match m.request() {
        Some(HostRequest::Arith { left, right, .. }) => {
            assert_eq!(left.bits, 30.25f64.to_bits());
            assert_eq!(right.bits, 3.5f64.to_bits());
        }
        other => panic!("unexpected request {:?}", other),
    }
    let (m, _) = steps_to_rest(m.answer(Ok(num(33.75))), 100);
    assert!(m.is_finished());
    assert_eq!(m.finish().0.unwrap().to_text(), "33.75");
}

#[test]
fn requests_of_the_other_operations() {
    for (text, op, left, right) in [
        ("(- 7.5 2)", ArithOp::Sub, 7.5, 2.0),
        ("(- 7.5)", ArithOp::Mul, 7.5, -1.0),
        ("(* 7.5 2)", ArithOp::Mul, 1.0, 7.5),
        ("(/ 7 2)", ArithOp::Div, 7.0, 2.0),
        ("(% 7.5 2)", ArithOp::Rem, 7.5, 2.0),
        ("(inc 7.5)", ArithOp::Add, 7.5, 1.0),
        ("(dec 7.5)", ArithOp::Sub, 7.5, 1.0),
        ("(square 7.5)", ArithOp::Mul, 7.5, 7.5),
        ("(cube 7.5)", ArithOp::Mul, 7.5, 7.5),
        ("(* 94906267 94906267)", ArithOp::Mul, 94906267.0, 94906267.0),
        ("(+ 9007199254740991 1)", ArithOp::Add, 9007199254740991.0, 1.0),
    ] {
        let form = read_one(text).unwrap();
        let (m, _) = steps_to_rest(Machine::start(form, create_default_env()), 100);
        match m.request() {
            Some(HostRequest::Arith { op: o, left: l, right: r }) => {
                assert_eq!(*o, op, "{}", text);
                assert_eq!(f64::from_bits(l.bits), left, "{}", text);
                assert_eq!(f64::from_bits(r.bits), right, "{}", text);
            }
            other => panic!("unexpected request {:?}", other),
        }
    }
}

#[test]
fn a_failure_of_the_host_is_raised() {
    let form = read_one("(do (def before 1) (+ 1.5 2) (def after 2))").unwrap();
    let (m, _) = steps_to_rest(Machine::start(form, create_default_env()), 100);
    let failure = EvalError { kind: ErrorKind::IOFailure, message: "no arithmetic".to_string() };
    let (m, _) = steps_to_rest(m.answer(Err(failure)), 100);
    assert!(m.is_finished());
    let (r, env) = m.finish();
    let e = r.unwrap_err();
    assert_eq!(e.kind, ErrorKind::IOFailure);
    assert_eq!(e.message, "no arithmetic");
    assert!(env.get("user/before").is_some());
    assert!(env.get("user/after").is_none());
}

#[test]
fn an_answer_that_is_no_number_ends_a_fold() {
    let form = read_one("(+ 1.5 2)").unwrap();
    let (m, _) = steps_to_rest(Machine::start(form, create_default_env()), 100);
    let (m, _) = steps_to_rest(m.answer(Ok(Value::Nil)), 100);
    let e = m.finish().0.unwrap_err();
    assert_eq!(e.kind, ErrorKind::TypeError);
    assert_eq!(e.message, "Arithmetic requires numbers");
}

#[test]
fn other_requests() {
    let form = read_one("(str-length \"abc\")").unwrap();
    let (m, _) = steps_to_rest(Machine::start(form, create_default_env()), 100);
    assert!(m.is_finished());
    assert_eq!(m.finish().0.unwrap().to_text(), "3");
    let form = read_one("(println \"a\" 1)").unwrap();
    let (m, _) = steps_to_rest(Machine::start(form, create_default_env()), 100);
    assert!(matches!(m.request(), Some(HostRequest::Emit { text }) if text == "a 1\n"));
    let (m, _) = steps_to_rest(m.answer(Ok(Value::Bool(true))), 100);
    assert_eq!(m.finish().0.unwrap().to_text(), "nil");
    let form = read_one("(load \"a/b.lisp\")").unwrap();
    let (m, _) = steps_to_rest(Machine::start(form, create_default_env()), 100);
    assert!(matches!(m.request(), Some(HostRequest::Source { path }) if path == "a/b.lisp"));
    let form = read_one("(require 'a.b.c)").unwrap();
    let (m, _) = steps_to_rest(Machine::start(form, create_default_env()), 100);
    assert!(matches!(m.request(), Some(HostRequest::Source { path }) if path == "std/a/b/c.lisp"));
    let form = read_one("(slurp \"f\" :opt)").unwrap();
    let (m, _) = steps_to_rest(Machine::start(form, create_default_env()), 100);
    match m.request() {
        Some(HostRequest::Native { name, args }) => {
            assert_eq!(name, "slurp");
            assert_eq!(args.len(), 2);
            assert_eq!(args[0].to_text(), "\"f\"");
            assert_eq!(args[1].to_text(), ":opt");
        }
        other => panic!("unexpected request {:?}", other),
    }
    let (m, _) = steps_to_rest(m.answer(Ok(Value::Str("content".to_string()))), 100);
    assert_eq!(m.finish().0.unwrap().to_text(), "\"content\"");
}

#[test]
fn depth_counts_the_calls_under_way() {
    let mut env = create_default_env();
    let mut h = host();
    run_with(&mut h, &mut env, "(defn inner [] (slurp \"x\")) (defn outer [] (inner))").unwrap();
    let form = read_one("(outer)").unwrap();
    let (m, _) = steps_to_rest(Machine::start(form, env), 1000);
    assert!(m.request().is_some());
    assert_eq!(m.depth, 2);
    let leaves = m
        .stack
        .iter()
        .filter(|f| matches!(f, Frame::Restore { leave: true, .. }))
        .count();
    assert_eq!(leaves, 2);
    let (m, _) = steps_to_rest(m.answer(Ok(Value::Nil)), 1000);
    assert!(m.is_finished());
    assert_eq!(m.depth, 0);
    assert!(m.stack.is_empty());
}

#[test]
fn the_environment_comes_back_after_a_call() {
    let mut env = create_default_env();
    let mut h = host();
    run_with(&mut h, &mut env, "(def x 1) (defn f [x] (do (def y 2) x))").unwrap();
    let before = env.data.len();
    assert_eq!(run_with(&mut h, &mut env, "(f 5)").unwrap().to_text(), "5");
    assert_eq!(env.data.len(), before);
    assert_eq!(run_with(&mut h, &mut env, "x").unwrap().to_text(), "1");
    assert!(run_with(&mut h, &mut env, "(f)").is_err());
    assert_eq!(env.data.len(), before);
    assert!(run_with(&mut h, &mut env, "(f (oops))").is_err());
    assert_eq!(env.data.len(), before);
}

#[test]
fn a_macro_that_expands_to_itself_never_deepens_the_stack() {
    let mut env = create_default_env();
    let mut h = host();
    run_with(&mut h, &mut env, "(defmacro again [] '(again))").unwrap();
    let form = read_one("(again)").unwrap();
    let mut m = Machine::start(form, env);
    for _ in 0..500 {
        m = m.step();
        assert!(m.stack.len() <= 2);
        assert_eq!(m.depth, 0);
    }
    assert!(!m.is_finished());
}
