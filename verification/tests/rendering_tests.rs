#![allow(dead_code)]
use cortado::{
    create_default_env, eval, number_spellings, read, read_all_forms, ArithOp, Env, ErrorKind,
    EvalError, Host, HostRequest, Number, Value,
};

struct TestHost {
    out: String,
    files: Vec<(String, String)>,
}

fn render(n: f64) -> String {
    if n.fract() == 0.0 && n.abs() < 1e15 {
        format!("{:.0}", n)
    } else {
        format!("{}", n)
    }
}

fn number(n: f64) -> Number {
    Number { bits: n.to_bits(), text: render(n) }
}

fn num(n: f64) -> Value {
    Value::Number(number(n))
}

fn read_forms(text: &str) -> Result<Vec<Value>, EvalError> {
    let mut table: Vec<(String, Number)> = Vec::new();
    for spelling in number_spellings(text) {
        if let Ok(n) = spelling.parse::<f64>() {
            table.push((spelling, number(n)));
        }
    }
    read_all_forms(text, &table)
}

fn read_one(text: &str) -> Result<Value, EvalError> {
    let mut table: Vec<(String, Number)> = Vec::new();
    for spelling in number_spellings(text) {
        if let Ok(n) = spelling.parse::<f64>() {
            table.push((spelling, number(n)));
        }
    }
    read(text, &table)
}

impl Host for TestHost {
    fn answer(&mut self, request: &HostRequest) -> Result<Value, EvalError> {
        match request {
            HostRequest::Arith { op, left, right } => {
                let a = f64::from_bits(left.bits);
                let b = f64::from_bits(right.bits);
                let r = match op {
                    ArithOp::Add => a + b,
                    ArithOp::Sub => a - b,
                    ArithOp::Mul => a * b,
                    ArithOp::Div => a / b,
                    ArithOp::Rem => a % b,
                };
                Ok(num(r))
            }
            HostRequest::Count { count } => Ok(num(*count as f64)),
            HostRequest::Emit { text } => {
                self.out.push_str(text);
                Ok(Value::Nil)
            }
            HostRequest::Source { path } => {
                for (name, content) in &self.files {
                    if name == path {
                        return match read_forms(content) {
                            Ok(forms) => Ok(Value::List(forms)),
                            Err(e) => Err(EvalError {
                                kind: ErrorKind::ParseError,
                                message: format!("Parse error in '{}': {}", path, e.message),
                            }),
                        };
                    }
                }
                Err(EvalError {
                    kind: ErrorKind::IOFailure,
                    message: format!("Failed to read file '{}': not found", path),
                })
            }
            HostRequest::Native { name, .. } => Err(EvalError {
                kind: ErrorKind::UndefinedSymbol,
                message: format!("No native procedure {}", name),
            }),
        }
    }
}

fn host() -> TestHost {
    TestHost { out: String::new(), files: Vec::new() }
}

fn run_with(host: &mut TestHost, env: &mut Env, text: &str) -> Result<Value, EvalError> {
    let mut last = Value::Nil;
    for form in read_forms(text)? {
        last = eval(&form, env, host)?;
    }
    Ok(last)
}

fn run(text: &str) -> Result<Value, EvalError> {
    let mut env = create_default_env();
    run_with(&mut host(), &mut env, text)
}

fn shown(text: &str) -> String {
    match run(text) {
        Ok(v) => v.to_text(),
        Err(e) => format!("error: {}", e.message),
    }
}

fn failure(text: &str) -> (ErrorKind, String) {
    match run(text) {
        Ok(v) => panic!("unexpected value {}", v.to_text()),
        Err(e) => (e.kind, e.message),
    }
}


#[test]
fn numbers_print_as_the_doubles_do() {
    let samples: [f64; 26] = [
        0.0, -0.0, 1.0, -1.0, 9.0, 10.0, 42.0, -42.0, 100.0, 123456789.0, 1e14,
        999999999999999.0, -999999999999999.0, 1e15, -1e15, 4503599627370496.0, 1e21, 0.5, -2.75,
        1e300, 5e-324, 0.1, 1099511627776.0, 4294967295.0, 65536.0, 7.0,
    ];
    for x in samples {
        assert_eq!(Value::Number(number(x)).to_text(), render(x), "{}", x);
    }
    assert_eq!(num(f64::INFINITY).to_text(), "inf");
    assert_eq!(num(f64::NEG_INFINITY).to_text(), "-inf");
    assert_eq!(num(f64::NAN).to_text(), "NaN");
}

#[test]
fn a_whole_number_prints_from_its_bits() {
    let three = Value::Number(Number { bits: 3.0f64.to_bits(), text: "three".to_string() });
    assert_eq!(three.to_text(), "3");
    let minus_zero = Value::Number(Number { bits: (-0.0f64).to_bits(), text: String::new() });
    assert_eq!(minus_zero.to_text(), "-0");
    let largest = Value::Number(Number {
        bits: 999999999999999.0f64.to_bits(),
        text: String::new(),
    });
    assert_eq!(largest.to_text(), "999999999999999");
    let half = Value::Number(Number { bits: 2.5f64.to_bits(), text: "five halves".to_string() });
    assert_eq!(half.to_text(), "five halves");
    let big = Value::Number(Number { bits: 1e15f64.to_bits(), text: "big".to_string() });
    assert_eq!(big.to_text(), "big");
    assert_eq!(Value::List(vec![three, half]).to_text(), "(3 five halves)");
}

#[test]
fn whole_numbers_below_the_limit() {
    for x in [0.0f64, -0.0, 1.0, 2.0, 1e14, 999999999999999.0, -5.0] {
        assert_eq!(cortado::number::whole_to_print(x.to_bits()), Some(x.abs() as u64), "{}", x);
    }
    for x in [1e15f64, -1e15, 0.5, 1e300, f64::INFINITY, f64::NAN, 5e-324, 1.0000000001] {
        assert_eq!(cortado::number::whole_to_print(x.to_bits()), None, "{}", x);
    }
}

#[test]
fn decimal_digits() {
    assert_eq!(cortado::text::decimal_of(0), "0");
    assert_eq!(cortado::text::decimal_of(7), "7");
    assert_eq!(cortado::text::decimal_of(10), "10");
    assert_eq!(cortado::text::decimal_of(18446744073709551615), "18446744073709551615");
    assert_eq!(cortado::text::decimal_string(1234567890), "1234567890");
}
