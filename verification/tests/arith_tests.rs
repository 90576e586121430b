#![allow(dead_code)]
use cortado::{
    create_default_env, eval, number_spellings, read, read_all_forms, ArithOp, Env, ErrorKind,
    EvalError, Host, HostRequest, Number, Value,
};

struct TestHost {
    out: String,
    files: Vec<(String, String)>,
}

fn render(n: f64) -> String {
    if n.fract() == 0.0 && n.abs() < 1e15 {
        format!("{:.0}", n)
    } else {
        format!("{}", n)
    }
}

fn number(n: f64) -> Number {
    Number { bits: n.to_bits(), text: render(n) }
}

fn num(n: f64) -> Value {
    Value::Number(number(n))
}

fn read_forms(text: &str) -> Result<Vec<Value>, EvalError> {
    let mut table: Vec<(String, Number)> = Vec::new();
    for spelling in number_spellings(text) {
        if let Ok(n) = spelling.parse::<f64>() {
            table.push((spelling, number(n)));
        }
    }
    read_all_forms(text, &table)
}

fn read_one(text: &str) -> Result<Value, EvalError> {
    let mut table: Vec<(String, Number)> = Vec::new();
    for spelling in number_spellings(text) {
        if let Ok(n) = spelling.parse::<f64>() {
            table.push((spelling, number(n)));
        }
    }
    read(text, &table)
}

impl Host for TestHost {
    fn answer(&mut self, request: &HostRequest) -> Result<Value, EvalError> {
        match request {
            HostRequest::Arith { op, left, right } => {
                let a = f64::from_bits(left.bits);
                let b = f64::from_bits(right.bits);
                let r = match op {
                    ArithOp::Add => a + b,
                    ArithOp::Sub => a - b,
                    ArithOp::Mul => a * b,
                    ArithOp::Div => a / b,
                    ArithOp::Rem => a % b,
                };
                Ok(num(r))
            }
            HostRequest::Count { count } => Ok(num(*count as f64)),
            HostRequest::Emit { text } => {
                self.out.push_str(text);
                Ok(Value::Nil)
            }
            HostRequest::Source { path } => {
                for (name, content) in &self.files {
                    if name == path {
                        return match read_forms(content) {
                            Ok(forms) => Ok(Value::List(forms)),
                            Err(e) => Err(EvalError {
                                kind: ErrorKind::ParseError,
                                message: format!("Parse error in '{}': {}", path, e.message),
                            }),
                        };
                    }
                }
                Err(EvalError {
                    kind: ErrorKind::IOFailure,
                    message: format!("Failed to read file '{}': not found", path),
                })
            }
            HostRequest::Native { name, .. } => Err(EvalError {
                kind: ErrorKind::UndefinedSymbol,
                message: format!("No native procedure {}", name),
            }),
        }
    }
}

fn host() -> TestHost {
    TestHost { out: String::new(), files: Vec::new() }
}

fn run_with(host: &mut TestHost, env: &mut Env, text: &str) -> Result<Value, EvalError> {
    let mut last = Value::Nil;
    for form in read_forms(text)? {
        last = eval(&form, env, host)?;
    }
    Ok(last)
}

fn run(text: &str) -> Result<Value, EvalError> {
    let mut env = create_default_env();
    run_with(&mut host(), &mut env, text)
}

fn shown(text: &str) -> String {
    match run(text) {
        Ok(v) => v.to_text(),
        Err(e) => format!("error: {}", e.message),
    }
}

fn failure(text: &str) -> (ErrorKind, String) {
    match run(text) {
        Ok(v) => panic!("unexpected value {}", v.to_text()),
        Err(e) => (e.kind, e.message),
    }
}


struct NoArithmetic;

impl Host for NoArithmetic {
    fn answer(&mut self, request: &HostRequest) -> Result<Value, EvalError> {
        match request {
            HostRequest::Arith { .. } => panic!("the host was asked for arithmetic"),
            _ => Err(EvalError { kind: ErrorKind::IOFailure, message: "no host".to_string() }),
        }
    }
}

fn alone(text: &str) -> String {
    let mut env = create_default_env();
    let mut last = Value::Nil;
    for form in read_all_forms(text, &Vec::new()).unwrap() {
        last = eval(&form, &mut env, &mut NoArithmetic).unwrap();
    }
    last.to_text()
}

#[test]
fn whole_number_programs_need_no_host() {
    assert_eq!(alone("(+ 1 2 3)"), "6");
    assert_eq!(alone("(defn f [n] (if (= n 0) 1 (* n (f (- n 1))))) (f 5)"), "120");
    assert_eq!(alone("(f-free)".replace("(f-free)", "(let [x 1 y (+ x 2)] (* x y))").as_str()), "3");
    assert_eq!(alone("((fn [n] (* n n)) 7)"), "49");
    assert_eq!(alone("(defn f [n] (if (= n 0) 1 (* n (f (- n 1))))) (f 18)"), "6402373705728000");
    assert_eq!(alone("(- 5)"), "-5");
    assert_eq!(alone("(- 0)"), "-0");
    assert_eq!(alone("(- 3 10)"), "-7");
    assert_eq!(alone("(/ 12 4)"), "3");
    assert_eq!(alone("(/ -12 4)"), "-3");
    assert_eq!(alone("(% 12 5)"), "2");
    assert_eq!(alone("(% -12 5)"), "-2");
    assert_eq!(alone("(% 12 -5)"), "2");
    assert_eq!(alone("[(inc 1) (dec 1) (square 12) (cube -3)]"), "[2 0 144 -27]");
    assert_eq!(alone("(* 94906265 94906265)"), "9007199136250225");
    assert_eq!(alone("(str-length \"four\")"), "4");
    assert_eq!(alone("(max 1 (+ 1 1) (* 1 1))"), "2");
}

#[test]
fn exact_arithmetic_agrees_with_the_doubles() {
    let samples: [f64; 22] = [
        0.0, -0.0, 1.0, -1.0, 2.0, -2.0, 3.0, 7.0, -7.0, 10.0, 12.0, -12.0, 255.0, 4096.0,
        94906265.0, 94906267.0, -94906267.0, 4503599627370496.0, 9007199254740991.0,
        -9007199254740991.0, 4503599627370495.0, 1000000007.0,
    ];
    let mut computed = 0;
    for a in samples {
        for b in samples {
            for (op, expected) in [
                (ArithOp::Add, a + b),
                (ArithOp::Sub, a - b),
                (ArithOp::Mul, a * b),
                (ArithOp::Div, a / b),
                (ArithOp::Rem, a % b),
            ] {
                if let Some(n) = cortado::arith::exact_arith(op, &number(a), &number(b)) {
                    assert_eq!(n.bits, expected.to_bits(), "{} {:?} {}", a, op, b);
                    assert_eq!(n.text, format!("{}", expected), "{} {:?} {}", a, op, b);
                    assert_eq!(Value::Number(n).to_text(), render(expected));
                    computed += 1;
                } else {
                    let whole = expected.fract() == 0.0 && expected.abs() < 9007199254740992.0;
                    assert!(!whole || b == 0.0, "{} {:?} {}", a, op, b);
                }
            }
        }
    }
    assert!(computed > 1000);
}

#[test]
fn other_numbers_are_left_to_the_host() {
    for (op, a, b) in [
        (ArithOp::Add, 0.5, 1.0),
        (ArithOp::Add, 1.0, 0.5),
        (ArithOp::Add, 9007199254740991.0, 1.0),
        (ArithOp::Sub, -9007199254740991.0, 1.0),
        (ArithOp::Mul, 94906267.0, 94906267.0),
        (ArithOp::Mul, 1e300, 1.0),
        (ArithOp::Div, 1.0, 3.0),
        (ArithOp::Div, 1.0, 0.0),
        (ArithOp::Rem, 1.0, 0.0),
        (ArithOp::Add, f64::NAN, 1.0),
        (ArithOp::Add, f64::INFINITY, 1.0),
        (ArithOp::Mul, 9007199254740992.0, 1.0),
    ] {
        assert!(cortado::arith::exact_arith(op, &number(a), &number(b)).is_none(), "{} {}", a, b);
    }
    assert_eq!(cortado::arith::small_whole_magnitude(9007199254740991.0f64.to_bits()), Some(9007199254740991));
    assert_eq!(cortado::arith::small_whole_magnitude(9007199254740992.0f64.to_bits()), None);
    assert_eq!(cortado::arith::small_whole_magnitude((-3.0f64).to_bits()), Some(3));
    assert_eq!(cortado::arith::small_whole_magnitude(0.5f64.to_bits()), None);
}
