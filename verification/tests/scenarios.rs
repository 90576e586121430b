#![allow(dead_code)]
use cortado::{
    create_default_env, eval, number_spellings, read, read_all_forms, ArithOp, Env, ErrorKind,
    EvalError, Host, HostRequest, Number, Value,
};

struct TestHost {
    out: String,
    files: Vec<(String, String)>,
}

fn render(n: f64) -> String {
    if n.fract() == 0.0 && n.abs() < 1e15 {
        format!("{:.0}", n)
    } else {
        format!("{}", n)
    }
}

fn number(n: f64) -> Number {
    Number { bits: n.to_bits(), text: render(n) }
}

fn num(n: f64) -> Value {
    Value::Number(number(n))
}

fn read_forms(text: &str) -> Result<Vec<Value>, EvalError> {
    let mut table: Vec<(String, Number)> = Vec::new();
    for spelling in number_spellings(text) {
        if let Ok(n) = spelling.parse::<f64>() {
            table.push((spelling, number(n)));
        }
    }
    read_all_forms(text, &table)
}

fn read_one(text: &str) -> Result<Value, EvalError> {
    let mut table: Vec<(String, Number)> = Vec::new();
    for spelling in number_spellings(text) {
        if let Ok(n) = spelling.parse::<f64>() {
            table.push((spelling, number(n)));
        }
    }
    read(text, &table)
}

impl Host for TestHost {
    fn answer(&mut self, request: &HostRequest) -> Result<Value, EvalError> {
        match request {
            HostRequest::Arith { op, left, right } => {
                let a = f64::from_bits(left.bits);
                let b = f64::from_bits(right.bits);
                let r = match op {
                    ArithOp::Add => a + b,
                    ArithOp::Sub => a - b,
                    ArithOp::Mul => a * b,
                    ArithOp::Div => a / b,
                    ArithOp::Rem => a % b,
                };
                Ok(num(r))
            }
            HostRequest::Count { count } => Ok(num(*count as f64)),
            HostRequest::Emit { text } => {
                self.out.push_str(text);
                Ok(Value::Nil)
            }
            HostRequest::Source { path } => {
                for (name, content) in &self.files {
                    if name == path {
                        return match read_forms(content) {
                            Ok(forms) => Ok(Value::List(forms)),
                            Err(e) => Err(EvalError {
                                kind: ErrorKind::ParseError,
                                message: format!("Parse error in '{}': {}", path, e.message),
                            }),
                        };
                    }
                }
                Err(EvalError {
                    kind: ErrorKind::IOFailure,
                    message: format!("Failed to read file '{}': not found", path),
                })
            }
            HostRequest::Native { name, .. } => Err(EvalError {
                kind: ErrorKind::UndefinedSymbol,
                message: format!("No native procedure {}", name),
            }),
        }
    }
}

fn host() -> TestHost {
    TestHost { out: String::new(), files: Vec::new() }
}

fn run_with(host: &mut TestHost, env: &mut Env, text: &str) -> Result<Value, EvalError> {
    let mut last = Value::Nil;
    for form in read_forms(text)? {
        last = eval(&form, env, host)?;
    }
    Ok(last)
}

fn run(text: &str) -> Result<Value, EvalError> {
    let mut env = create_default_env();
    run_with(&mut host(), &mut env, text)
}

fn shown(text: &str) -> String {
    match run(text) {
        Ok(v) => v.to_text(),
        Err(e) => format!("error: {}", e.message),
    }
}

fn failure(text: &str) -> (ErrorKind, String) {
    match run(text) {
        Ok(v) => panic!("unexpected value {}", v.to_text()),
        Err(e) => (e.kind, e.message),
    }
}


#[test]
fn sum_of_three() {
    assert_eq!(shown("(+ 1 2 3)"), "6");
}

#[test]
fn factorial_by_self_recursion() {
    assert_eq!(shown("(defn f [n] (if (= n 0) 1 (* n (f (- n 1))))) (f 5)"), "120");
}

#[test]
fn let_binds_in_sequence() {
    assert_eq!(shown("(let [x 1 y (+ x 2)] (* x y))"), "3");
}

#[test]
fn letrec_mutual_recursion() {
    assert_eq!(
        shown(
            "(letrec [[even? (fn [n] (if (= n 0) true (odd? (- n 1))))] [odd? (fn [n] (if (= n 0) false (even? (- n 1))))]] (even? 10))"
        ),
        "true"
    );
}

#[test]
fn letrec_mutual_recursion_odd_side() {
    assert_eq!(
        shown(
            "(letrec [[even? (fn [n] (if (= n 0) true (odd? (- n 1))))] [odd? (fn [n] (if (= n 0) false (even? (- n 1))))]] (odd? 7))"
        ),
        "true"
    );
}

#[test]
fn macro_with_quasiquote() {
    assert_eq!(shown("(defmacro unless [c b] `(if ~c nil ~b)) (unless false 42)"), "42");
}

#[test]
fn keyword_as_accessor() {
    assert_eq!(shown("(:a {:a 1 :b 2})"), "1");
}

#[test]
fn anonymous_function_call() {
    assert_eq!(shown("((fn [n] (* n n)) 7)"), "49");
}

#[test]
fn and_short_circuits() {
    assert_eq!(shown("(and true false (undefined-thing))"), "false");
}

#[test]
fn or_short_circuits() {
    assert_eq!(shown("(or nil 7 (undefined-thing))"), "7");
}

#[test]
fn call_at_depth_one_thousand_and_one_fails() {
    let (kind, message) =
        failure("(defn down [n] (if (= n 0) 0 (down (- n 1)))) (down 1000)");
    assert_eq!(kind, ErrorKind::RecursionLimit);
    assert_eq!(message, "Maximum recursion depth 1000 exceeded");
}

#[test]
fn call_at_depth_one_thousand_succeeds() {
    assert_eq!(shown("(defn down [n] (if (= n 0) 0 (down (- n 1)))) (down 999)"), "0");
}

#[test]
fn endless_recursion_is_stopped() {
    let (kind, _) = failure("(defn down [n] (down n)) (down 1)");
    assert_eq!(kind, ErrorKind::RecursionLimit);
}

#[test]
fn depth_is_given_back_after_a_failure() {
    let mut env = create_default_env();
    let mut h = host();
    assert!(run_with(&mut h, &mut env, "(defn down [n] (down n)) (down 1)").is_err());
    let v = run_with(&mut h, &mut env, "(defn up [n] (if (= n 0) 0 (up (- n 1)))) (up 900)");
    assert_eq!(v.unwrap().to_text(), "0");
}

#[test]
fn undefined_symbol_in_fresh_env() {
    let mut env = Env::new();
    let r = eval(&Value::Symbol("nowhere".to_string()), &mut env, &mut host());
    let e = r.unwrap_err();
    assert_eq!(e.kind, ErrorKind::UndefinedSymbol);
    assert_eq!(e.message, "Undefined symbol: nowhere");
}

#[test]
fn quote_returns_its_argument() {
    assert_eq!(shown("(quote (a b (c 1) [d] {:k v}))"), "(a b (c 1) [d] {:k v})");
    assert_eq!(shown("'(+ 1 2)"), "(+ 1 2)");
}

#[test]
fn self_evaluating_values() {
    for text in ["42", "-1.5", "true", "false", "nil", "\"text\"", ":key", "[1 \"a\" [true nil]]", "{:a 1 :b [2 3]}"] {
        assert_eq!(shown(text), text);
    }
    let mut env = create_default_env();
    let f = run_with(&mut host(), &mut env, "(fn [x] x)").unwrap();
    let again = eval(&f, &mut env, &mut host()).unwrap();
    assert_eq!(again.to_text(), "#<function(x)>");
    let r = Value::IOResource(cortado::IOResource::Reader(3));
    assert_eq!(eval(&r, &mut env, &mut host()).unwrap().to_text(), "#<reader>");
}

#[test]
fn truthiness() {
    assert!(!Value::Bool(false).is_truthy());
    assert!(!Value::Nil.is_truthy());
    assert!(Value::Bool(true).is_truthy());
    assert!(num(0.0).is_truthy());
    assert!(Value::Str(String::new()).is_truthy());
    assert!(Value::List(vec![]).is_truthy());
    assert!(Value::Uninitialized.is_truthy());
    assert_eq!(shown("(if 0 1 2)"), "1");
    assert_eq!(shown("(if \"\" 1 2)"), "1");
    assert_eq!(shown("(if nil 1 2)"), "2");
    assert_eq!(shown("(if false 1 2)"), "2");
}
