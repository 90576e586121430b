#![allow(dead_code)]
use cortado::{
    create_default_env, eval, number_spellings, read, read_all_forms, ArithOp, Env, ErrorKind,
    EvalError, Host, HostRequest, Number, Value,
};

struct TestHost {
    out: String,
    files: Vec<(String, String)>,
}

fn render(n: f64) -> String {
    if n.fract() == 0.0 && n.abs() < 1e15 {
        format!("{:.0}", n)
    } else {
        format!("{}", n)
    }
}

fn number(n: f64) -> Number {
    Number { bits: n.to_bits(), text: render(n) }
}

fn num(n: f64) -> Value {
    Value::Number(number(n))
}

fn read_forms(text: &str) -> Result<Vec<Value>, EvalError> {
    let mut table: Vec<(String, Number)> = Vec::new();
    for spelling in number_spellings(text) {
        if let Ok(n) = spelling.parse::<f64>() {
            table.push((spelling, number(n)));
        }
    }
    read_all_forms(text, &table)
}

fn read_one(text: &str) -> Result<Value, EvalError> {
    let mut table: Vec<(String, Number)> = Vec::new();
    for spelling in number_spellings(text) {
        if let Ok(n) = spelling.parse::<f64>() {
            table.push((spelling, number(n)));
        }
    }
    read(text, &table)
}

impl Host for TestHost {
    fn answer(&mut self, request: &HostRequest) -> Result<Value, EvalError> {
        match request {
            HostRequest::Arith { op, left, right } => {
                let a = f64::from_bits(left.bits);
                let b = f64::from_bits(right.bits);
                let r = match op {
                    ArithOp::Add => a + b,
                    ArithOp::Sub => a - b,
                    ArithOp::Mul => a * b,
                    ArithOp::Div => a / b,
                    ArithOp::Rem => a % b,
                };
                Ok(num(r))
            }
            HostRequest::Count { count } => Ok(num(*count as f64)),
            HostRequest::Emit { text } => {
                self.out.push_str(text);
                Ok(Value::Nil)
            }
            HostRequest::Source { path } => {
                for (name, content) in &self.files {
                    if name == path {
                        return match read_forms(content) {
                            Ok(forms) => Ok(Value::List(forms)),
                            Err(e) => Err(EvalError {
                                kind: ErrorKind::ParseError,
                                message: format!("Parse error in '{}': {}", path, e.message),
                            }),
                        };
                    }
                }
                Err(EvalError {
                    kind: ErrorKind::IOFailure,
                    message: format!("Failed to read file '{}': not found", path),
                })
            }
            HostRequest::Native { name, .. } => Err(EvalError {
                kind: ErrorKind::UndefinedSymbol,
                message: format!("No native procedure {}", name),
            }),
        }
    }
}

fn host() -> TestHost {
    TestHost { out: String::new(), files: Vec::new() }
}

fn run_with(host: &mut TestHost, env: &mut Env, text: &str) -> Result<Value, EvalError> {
    let mut last = Value::Nil;
    for form in read_forms(text)? {
        last = eval(&form, env, host)?;
    }
    Ok(last)
}

fn run(text: &str) -> Result<Value, EvalError> {
    let mut env = create_default_env();
    run_with(&mut host(), &mut env, text)
}

fn shown(text: &str) -> String {
    match run(text) {
        Ok(v) => v.to_text(),
        Err(e) => format!("error: {}", e.message),
    }
}

fn failure(text: &str) -> (ErrorKind, String) {
    match run(text) {
        Ok(v) => panic!("unexpected value {}", v.to_text()),
        Err(e) => (e.kind, e.message),
    }
}


fn arity(text: &str, message: &str) {
    assert_eq!(failure(text), (ErrorKind::ArityError, message.to_string()), "{}", text);
}

fn mismatch(text: &str, message: &str) {
    assert_eq!(failure(text), (ErrorKind::TypeError, message.to_string()), "{}", text);
}

#[test]
fn addition_and_multiplication() {
    assert_eq!(shown("(+)"), "0");
    assert_eq!(shown("(*)"), "1");
    assert_eq!(shown("(+ 5)"), "5");
    assert_eq!(shown("(* 5)"), "5");
    assert_eq!(shown("(+ 1.5 2.25)"), "3.75");
    assert_eq!(shown("(* 2 3 4)"), "24");
    assert_eq!(shown("(+ 0.1 0.2)"), "0.30000000000000004");
    mismatch("(+ 1 \"a\")", "+ requires numbers, got \"a\"");
    mismatch("(+ nil)", "+ requires numbers, got nil");
    mismatch("(* 1 [2] :k)", "* requires numbers, got [2]");
}

#[test]
fn subtraction() {
    assert_eq!(shown("(- 5)"), "-5");
    assert_eq!(shown("(- -5)"), "5");
    assert_eq!(shown("(- 0)"), "-0");
    assert_eq!(shown("(- 10 1 2)"), "7");
    arity("(-)", "- requires at least 1 argument");
    mismatch("(- :a)", "- requires numbers, got :a");
    mismatch("(- 1 :a)", "- requires numbers, got :a");
}

#[test]
fn division_and_modulo() {
    assert_eq!(shown("(/ 10 4)"), "2.5");
    assert_eq!(shown("(/ 100 5 2)"), "10");
    assert_eq!(shown("(% 10 3)"), "1");
    assert_eq!(shown("(% -7 2)"), "-1");
    assert_eq!(shown("(% 5.5 2)"), "1.5");
    arity("(/ 1)", "/ requires at least 2 arguments");
    arity("(/)", "/ requires at least 2 arguments");
    arity("(% 1)", "% requires exactly 2 arguments");
    arity("(% 1 2 3)", "% requires exactly 2 arguments");
    assert_eq!(failure("(/ 1 0)"), (ErrorKind::DivideByZero, "Division by zero".to_string()));
    assert_eq!(failure("(/ 1 2 (- 0))"), (ErrorKind::DivideByZero, "Division by zero".to_string()));
    assert_eq!(failure("(/ 1 0 :a)"), (ErrorKind::DivideByZero, "Division by zero".to_string()));
    assert_eq!(failure("(% 1 0)"), (ErrorKind::DivideByZero, "Modulo by zero".to_string()));
    mismatch("(/ 1 :a 0)", "/ requires numbers, got :a");
    mismatch("(/ :a 1)", "/ requires numbers, got :a");
    mismatch("(% 1 :a)", "% requires numbers");
    assert_eq!(shown("(/ 0 5)"), "0");
}

#[test]
fn unary_arithmetic() {
    assert_eq!(shown("(inc 1)"), "2");
    assert_eq!(shown("(dec 1)"), "0");
    assert_eq!(shown("(square 1.5)"), "2.25");
    assert_eq!(shown("(cube 3)"), "27");
    assert_eq!(shown("(cube -2)"), "-8");
    assert_eq!(shown("(abs -3)"), "3");
    assert_eq!(shown("(abs 3.5)"), "3.5");
    assert_eq!(shown("(abs (- 0))"), "0");
    for name in ["inc", "dec", "square", "cube", "abs"] {
        arity(&format!("({})", name), &format!("{} requires exactly 1 argument", name));
        arity(&format!("({} 1 2)", name), &format!("{} requires exactly 1 argument", name));
        mismatch(&format!("({} :k)", name), &format!("{} requires a number", name));
    }
}

#[test]
fn equality() {
    assert_eq!(shown("(= 1 1)"), "true");
    assert_eq!(shown("(= 1 1 1)"), "true");
    assert_eq!(shown("(= 1 1 2)"), "false");
    assert_eq!(shown("(= 1 2)"), "false");
    assert_eq!(shown("(= 0 (- 0))"), "true");
    assert_eq!(shown("(= 1 1.0)"), "true");
    assert_eq!(shown("(= \"a\" \"a\")"), "true");
    assert_eq!(shown("(= \"a\" :a)"), "false");
    assert_eq!(shown("(= :a :a)"), "true");
    assert_eq!(shown("(= 'a 'a)"), "true");
    assert_eq!(shown("(= nil nil)"), "true");
    assert_eq!(shown("(= nil false)"), "false");
    assert_eq!(shown("(= true true)"), "true");
    assert_eq!(shown("(= '(1 2) (list 1 2))"), "true");
    assert_eq!(shown("(= '(1 2) [1 2])"), "false");
    assert_eq!(shown("(= [1 [2]] [1 [2]])"), "true");
    assert_eq!(shown("(= [1 2] [1 2 3])"), "false");
    assert_eq!(shown("(= {:a 1 :b 2} {:b 2 :a 1})"), "true");
    assert_eq!(shown("(= {:a 1} {:a 1 :b 2})"), "false");
    assert_eq!(shown("(= {:a 1 :b 2} {:a 1})"), "false");
    assert_eq!(shown("(= {:a 1} {:a 2})"), "false");
    assert_eq!(shown("(= {:a 1} {\"a\" 1})"), "true");
    assert_eq!(shown("(= first first)"), "true");
    assert_eq!(shown("(= first rest)"), "false");
    assert_eq!(shown("(defn f [x] x) (= f f)"), "true");
    assert_eq!(shown("(= (fn [x] x) (fn [x] x))"), "true");
    assert_eq!(shown("(= (fn [x] x) (fn [y] y))"), "false");
    assert_eq!(shown("(= (fn [x] x) (fn [x] 1))"), "false");
    assert_eq!(shown("(= when unless)"), "false");
    assert_eq!(shown("(not= 1 2)"), "true");
    assert_eq!(shown("(not= [1] [1])"), "false");
    arity("(= 1)", "= requires at least 2 arguments");
    arity("(not= 1)", "not= requires exactly 2 arguments");
    arity("(not= 1 2 3)", "not= requires exactly 2 arguments");
}

#[test]
fn equality_of_special_numbers() {
    let nan = num(f64::NAN);
    let inf = num(f64::INFINITY);
    assert!(!cortado::equality::value_eq(&nan, &nan));
    assert!(cortado::equality::value_eq(&inf, &inf));
    assert!(!cortado::equality::value_eq(&inf, &num(f64::NEG_INFINITY)));
    assert!(cortado::equality::value_eq(&num(0.0), &num(-0.0)));
    assert!(!cortado::equality::value_eq(&num(1.0), &num(-1.0)));
    assert!(cortado::equality::value_eq(
        &Value::Number(Number { bits: 2.5f64.to_bits(), text: "2.5".to_string() }),
        &Value::Number(Number { bits: 2.5f64.to_bits(), text: "5/2".to_string() })
    ));
    let r = Value::IOResource(cortado::IOResource::Reader(1));
    assert!(!cortado::equality::value_eq(&r, &r));
    assert!(cortado::equality::value_eq(&Value::Uninitialized, &Value::Uninitialized));
}

#[test]
fn ordering() {
    assert_eq!(shown("[(< 1 2) (< 2 1) (< 1 1)]"), "[true false false]");
    assert_eq!(shown("[(> 1 2) (> 2 1) (> 1 1)]"), "[false true false]");
    assert_eq!(shown("[(<= 1 2) (<= 2 1) (<= 1 1)]"), "[true false true]");
    assert_eq!(shown("[(>= 1 2) (>= 2 1) (>= 1 1)]"), "[false true true]");
    assert_eq!(shown("[(< -2 -1) (< -1 -2) (< -1 1) (< 1 -1) (< -0.5 0) (< 0 (- 0))]"), "[true false true false true false]");
    assert_eq!(shown("[(<= 0 (- 0)) (>= (- 0) 0) (< 0.1 0.2) (> 1000000 999999.5)]"), "[true true true true]");
    for name in ["<", ">", "<=", ">="] {
        arity(&format!("({} 1)", name), &format!("{} requires exactly 2 arguments", name));
        arity(&format!("({} 1 2 3)", name), &format!("{} requires exactly 2 arguments", name));
        mismatch(&format!("({} 1 :a)", name), &format!("{} requires numbers", name));
    }
}

#[test]
fn ordering_agrees_with_the_doubles() {
    let samples = [
        f64::NEG_INFINITY, -1e300, -2.5, -1.0, -1e-300, -0.0, 0.0, 5e-324, 1e-300, 1.0, 2.5, 1e300,
        f64::INFINITY, f64::NAN,
    ];
    for a in samples {
        for b in samples {
            assert_eq!(cortado::number::bits_less(a.to_bits(), b.to_bits()), a < b, "{} < {}", a, b);
            assert_eq!(cortado::number::bits_equal(a.to_bits(), b.to_bits()), a == b, "{} == {}", a, b);
        }
        assert_eq!(cortado::number::bits_zero(a.to_bits()), a == 0.0);
        assert_eq!(cortado::number::bits_nan(a.to_bits()), a.is_nan());
        assert_eq!(cortado::number::bits_whole(a.to_bits()), a.fract() == 0.0, "{}", a);
    }
}

#[test]
fn parity_agrees_with_the_doubles() {
    let samples: [f64; 24] = [
        0.0, -0.0, 1.0, -1.0, 2.0, 3.0, -3.0, 4.0, 7.0, 1e15, 1e15 + 1.0, 9007199254740991.0,
        9007199254740992.0, 9007199254740993.0, 4503599627370497.0, 1e19, -1e19,
        9223372036854775808.0, -9223372036854775808.0, 1e300, -1e300, 6.0, 1023.0, 1024.0,
    ];
    for a in samples {
        assert!(cortado::number::bits_whole(a.to_bits()), "{}", a);
        assert_eq!(cortado::number::bits_odd(a.to_bits()), (a as i64) % 2 != 0, "{}", a);
    }
    let fractions: [f64; 7] = [0.5, -1.5, 1e-10, 2.000001, f64::INFINITY, f64::NAN, 5e-324];
    for a in fractions {
        assert!(!cortado::number::bits_whole(a.to_bits()), "{}", a);
    }
}

#[test]
fn sign_predicates() {
    assert_eq!(shown("[(zero? 0) (zero? (- 0)) (zero? 1) (zero? -0.1)]"), "[true true false false]");
    assert_eq!(shown("[(pos? 1) (pos? 0) (pos? -1) (pos? 0.001)]"), "[true false false true]");
    assert_eq!(shown("[(neg? 1) (neg? 0) (neg? -1) (neg? (- 0))]"), "[false false true false]");
    assert_eq!(shown("[(negative? 1) (negative? -1)]"), "[false true]");
    assert_eq!(shown("[(even? 0) (even? 2) (even? 3) (even? -4) (even? -3)]"), "[true true false true false]");
    assert_eq!(shown("[(odd? 0) (odd? 2) (odd? 3) (odd? -4) (odd? -3)]"), "[false false true false true]");
    for name in ["zero?", "pos?", "neg?", "negative?", "even?", "odd?"] {
        arity(&format!("({})", name), &format!("{} requires exactly 1 argument", name));
        mismatch(&format!("({} nil)", name), &format!("{} requires a number", name));
    }
    mismatch("(even? 1.5)", "even? requires an integer");
    mismatch("(odd? 0.1)", "odd? requires an integer");
}

#[test]
fn min_and_max() {
    assert_eq!(shown("(min 3 1 2)"), "1");
    assert_eq!(shown("(max 3 1 2)"), "3");
    assert_eq!(shown("(min 1 1.5)"), "1");
    assert_eq!(shown("(max -1 -2)"), "-1");
    assert_eq!(shown("(min 0 (- 0))"), "0");
    assert_eq!(shown("(max (- 0) 0)"), "-0");
    arity("(min 1)", "min requires at least 2 arguments");
    arity("(max)", "max requires at least 2 arguments");
    mismatch("(min :a 1)", "min requires numbers");
    mismatch("(max 1 2 :a)", "max requires numbers");
}

#[test]
fn predicates_on_any_value() {
    assert_eq!(shown("[(nil? nil) (nil? false) (nil? 0) (nil? '())]"), "[true false false false]");
    assert_eq!(shown("[(true? true) (true? 1) (true? false)]"), "[true false false]");
    assert_eq!(shown("[(false? false) (false? nil) (false? true)]"), "[true false false]");
    assert_eq!(shown("[(some? nil) (some? false) (some? 0)]"), "[false true true]");
    assert_eq!(shown("[(string? \"\") (string? :a) (number? 1) (number? \"1\")]"), "[true false true false]");
    assert_eq!(shown("[(vector? []) (vector? '()) (list? '()) (list? []) (map? {}) (map? [])]"), "[true false true false true false]");
    assert_eq!(
        shown("[(empty? '()) (empty? []) (empty? \"\") (empty? nil) (empty? '(1)) (empty? [1]) (empty? \"a\") (empty? {}) (empty? 0)]"),
        "[true true true true false false false false false]"
    );
    assert_eq!(shown("[(not nil) (not false) (not 0) (not true) (not '())]"), "[true true false false false]");
    for name in [
        "nil?", "true?", "false?", "some?", "string?", "number?", "vector?", "list?", "map?",
        "empty?", "not", "identity", "constantly",
    ] {
        arity(&format!("({})", name), &format!("{} requires exactly 1 argument", name));
        arity(&format!("({} 1 2)", name), &format!("{} requires exactly 1 argument", name));
    }
}

#[test]
fn lists() {
    assert_eq!(shown("(list)"), "nil");
    assert_eq!(shown("(list 1 \"a\" :b)"), "(1 \"a\" :b)");
    assert_eq!(shown("(cons 1 '(2 3))"), "(1 2 3)");
    assert_eq!(shown("(cons 1 nil)"), "(1)");
    assert_eq!(shown("(cons '(1) '())"), "((1))");
    assert_eq!(shown("(first '(1 2))"), "1");
    assert_eq!(shown("(first '())"), "nil");
    assert_eq!(shown("(first nil)"), "nil");
    assert_eq!(shown("(rest '(1 2 3))"), "(2 3)");
    assert_eq!(shown("(rest '(1))"), "nil");
    assert_eq!(shown("(rest '())"), "nil");
    assert_eq!(shown("(rest nil)"), "nil");
    assert_eq!(shown("(concat)"), "()");
    assert_eq!(shown("(concat '(1) [2 3] nil '() '(4))"), "(1 2 3 4)");
    assert_eq!(shown("(identity [1])"), "[1]");
    arity("(cons 1)", "cons requires exactly 2 arguments");
    arity("(first)", "first requires exactly 1 argument");
    arity("(rest 1 2)", "rest requires exactly 1 argument");
    mismatch("(cons 1 [2])", "cons requires a list as second argument");
    mismatch("(first [1])", "first requires a list");
    mismatch("(rest \"a\")", "rest requires a list");
    mismatch("(concat '(1) 2)", "concat requires lists, vectors, or nil");
}

#[test]
fn maps() {
    assert_eq!(shown("(get {:a 1} :a)"), "1");
    assert_eq!(shown("(get {:a 1} \"a\")"), "1");
    assert_eq!(shown("(get {:a 1} :b)"), "nil");
    assert_eq!(shown("(assoc {} :a 1)"), "{:a 1}");
    assert_eq!(shown("(assoc {:a 1 :b 2} :a 3)"), "{:a 3 :b 2}");
    assert_eq!(shown("(assoc {:a 1} \"b c\" 2)"), "{:a 1 \"b c\" 2}");
    assert_eq!(shown("(def m {:a 1}) (assoc m :b 2) m"), "{:a 1}");
    assert_eq!(shown("[(contains? {:a 1} :a) (contains? {:a 1} \"a\") (contains? {:a 1} :b)]"), "[true true false]");
    assert_eq!(shown("[(contains? '(1 2) 2) (contains? '(1 2) 3) (contains? '() nil) (contains? '([1]) [1])]"), "[true false false true]");
    arity("(get {})", "get requires exactly 2 arguments");
    arity("(assoc {} :a)", "assoc requires exactly 3 arguments");
    arity("(contains? {})", "contains? requires exactly 2 arguments");
    mismatch("(get [] :a)", "get requires a map and a key");
    mismatch("(get {} 1)", "get requires a map and a key");
    mismatch("(assoc [] :a 1)", "assoc requires a map as first argument");
    mismatch("(assoc {} 1 1)", "assoc key must be a keyword or string");
    mismatch("(contains? [1] 1)", "contains? requires a list/map and a value");
    mismatch("(contains? {} 1)", "contains? requires a list/map and a value");
}

#[test]
fn strings() {
    assert_eq!(shown("(str)"), "\"\"");
    assert_eq!(shown("(str \"a\" 1 :k 'sym nil true 2.5)"), "\"a1ksymniltrue2.5\"");
    assert_eq!(shown("(str '(1 \"a\") [:k] {:a 1})"), "\"(1 \\\"a\\\")[:k]{:a 1}\"");
    assert_eq!(shown("(str first (fn [x] x) when)"), "\"#<function>#<function>#<macro>\"");
    assert_eq!(shown("(str-length \"\")"), "0");
    assert_eq!(shown("(str-length \"hello\")"), "5");
    assert_eq!(shown("(str-length \"h\u{e9}\")"), "3");
    arity("(str-length)", "str-length requires exactly 1 argument");
    mismatch("(str-length 5)", "str-length requires a string");
}

#[test]
fn output() {
    let mut h = host();
    let mut env = create_default_env();
    assert_eq!(run_with(&mut h, &mut env, "(print \"a\" 1 :k)").unwrap().to_text(), "nil");
    assert_eq!(h.out, "\"a\" 1 :k\n");
    h.out.clear();
    run_with(&mut h, &mut env, "(println \"a\" 1 '(\"b\"))").unwrap();
    assert_eq!(h.out, "a 1 (\"b\")\n");
    h.out.clear();
    run_with(&mut h, &mut env, "(println) (print)").unwrap();
    assert_eq!(h.out, "\n\n");
    h.out.clear();
    assert_eq!(run_with(&mut h, &mut env, "(printf \"%s + %s = %1%2 %s|%s\" 1 \"two\" :k)").unwrap().to_text(), "nil");
    assert_eq!(h.out, "1 + two = 1two :k|%s");
    h.out.clear();
    run_with(&mut h, &mut env, "(printf \"plain %% text\\n\")").unwrap();
    assert_eq!(h.out, "plain %% text\n");
    h.out.clear();
    run_with(&mut h, &mut env, "(printf \"%1%1 %3 %2\" \"%2\" \"x\")").unwrap();
    assert_eq!(h.out, "xx %3 x");
    h.out.clear();
    run_with(&mut h, &mut env, "(printf 12)").unwrap();
    assert_eq!(h.out, "12");
    arity("(printf)", "printf requires at least 1 argument");
}

#[test]
fn apply_and_time() {
    assert_eq!(shown("(apply + '(1 2 3))"), "6");
    assert_eq!(shown("(apply + [1 2])"), "3");
    assert_eq!(shown("(apply + nil)"), "0");
    assert_eq!(shown("(apply list '())"), "nil");
    assert_eq!(shown("(apply (fn [a b] (- a b)) '(5 3))"), "2");
    assert_eq!(shown("(apply apply (list + '(1 2)))"), "3");
    assert_eq!(shown("(apply first '((7 8)))"), "7");
    assert_eq!(shown("(time (fn [] (+ 1 2)))"), "3");
    assert_eq!(shown("(time list)"), "nil");
    assert_eq!(shown("(def x 1) (apply (fn [x] x) '(2)) x"), "1");
    arity("(apply +)", "apply requires exactly 2 arguments");
    arity("(time)", "time requires exactly 1 argument");
    arity("(apply (fn [a] a) '(1 2))", "Function expects 1 arguments, got 2");
    mismatch("(apply + 1)", "apply requires a list or vector as second argument");
    mismatch("(apply 1 '())", "First argument to apply must be a function");
    mismatch("(apply when '(1 2))", "Cannot apply macro (use macroexpand instead)");
    mismatch("(time (fn [a] a))", "time requires a function with no parameters");
    mismatch("(time 1)", "time requires a function");
    mismatch("(time when)", "time requires a function");
}

#[test]
fn constantly_gives_a_function() {
    assert_eq!(shown("((constantly 5) :anything)"), "5");
    assert_eq!(shown("((constantly \"s\") 1)"), "\"s\"");
    assert_eq!(shown("(constantly 5)"), "#<function(_)>");
}

#[test]
fn natives_of_the_host() {
    assert_eq!(
        failure("(slurp \"f\")"),
        (ErrorKind::UndefinedSymbol, "No native procedure slurp".to_string())
    );
    let mut h = host();
    let mut env = create_default_env();
    env.set(
        "custom".to_string(),
        Value::Function(cortado::Function::Native("custom".to_string())),
    );
    let e = run_with(&mut h, &mut env, "(custom 1 (+ 1 1))").unwrap_err();
    assert_eq!(e.message, "No native procedure custom");
}
