#![allow(dead_code)]
use cortado::{
    create_default_env, eval, number_spellings, read, read_all_forms, tokenize, ArithOp, Env,
    ErrorKind, EvalError, Host, HostRequest, Number, Token, Value, count_parens, is_symbol_char,
    is_symbol_start,
};

struct TestHost {
    out: String,
    files: Vec<(String, String)>,
}

fn render(n: f64) -> String {
    if n.fract() == 0.0 && n.abs() < 1e15 {
        format!("{:.0}", n)
    } else {
        format!("{}", n)
    }
}

fn number(n: f64) -> Number {
    Number { bits: n.to_bits(), text: render(n) }
}

fn num(n: f64) -> Value {
    Value::Number(number(n))
}

fn read_forms(text: &str) -> Result<Vec<Value>, EvalError> {
    let mut table: Vec<(String, Number)> = Vec::new();
    for spelling in number_spellings(text) {
        if let Ok(n) = spelling.parse::<f64>() {
            table.push((spelling, number(n)));
        }
    }
    read_all_forms(text, &table)
}

fn read_one(text: &str) -> Result<Value, EvalError> {
    let mut table: Vec<(String, Number)> = Vec::new();
    for spelling in number_spellings(text) {
        if let Ok(n) = spelling.parse::<f64>() {
            table.push((spelling, number(n)));
        }
    }
    read(text, &table)
}

impl Host for TestHost {
    fn answer(&mut self, request: &HostRequest) -> Result<Value, EvalError> {
        match request {
            HostRequest::Arith { op, left, right } => {
                let a = f64::from_bits(left.bits);
                let b = f64::from_bits(right.bits);
                let r = match op {
                    ArithOp::Add => a + b,
                    ArithOp::Sub => a - b,
                    ArithOp::Mul => a * b,
                    ArithOp::Div => a / b,
                    ArithOp::Rem => a % b,
                };
                Ok(num(r))
            }
            HostRequest::Count { count } => Ok(num(*count as f64)),
            HostRequest::Emit { text } => {
                self.out.push_str(text);
                Ok(Value::Nil)
            }
            HostRequest::Source { path } => {
                for (name, content) in &self.files {
                    if name == path {
                        return match read_forms(content) {
                            Ok(forms) => Ok(Value::List(forms)),
                            Err(e) => Err(EvalError {
                                kind: ErrorKind::ParseError,
                                message: format!("Parse error in '{}': {}", path, e.message),
                            }),
                        };
                    }
                }
                Err(EvalError {
                    kind: ErrorKind::IOFailure,
                    message: format!("Failed to read file '{}': not found", path),
                })
            }
            HostRequest::Native { name, .. } => Err(EvalError {
                kind: ErrorKind::UndefinedSymbol,
                message: format!("No native procedure {}", name),
            }),
        }
    }
}

fn host() -> TestHost {
    TestHost { out: String::new(), files: Vec::new() }
}

fn run_with(host: &mut TestHost, env: &mut Env, text: &str) -> Result<Value, EvalError> {
    let mut last = Value::Nil;
    for form in read_forms(text)? {
        last = eval(&form, env, host)?;
    }
    Ok(last)
}

fn run(text: &str) -> Result<Value, EvalError> {
    let mut env = create_default_env();
    run_with(&mut host(), &mut env, text)
}

fn shown(text: &str) -> String {
    match run(text) {
        Ok(v) => v.to_text(),
        Err(e) => format!("error: {}", e.message),
    }
}

fn failure(text: &str) -> (ErrorKind, String) {
    match run(text) {
        Ok(v) => panic!("unexpected value {}", v.to_text()),
        Err(e) => (e.kind, e.message),
    }
}


fn parse_failure(text: &str) -> String {
    match read_one(text) {
        Ok(v) => panic!("unexpected value {}", v.to_text()),
        Err(e) => {
            assert_eq!(e.kind, ErrorKind::ParseError);
            e.message
        }
    }
}

fn text_of(text: &str) -> String {
    read_one(text).unwrap().to_text()
}

#[test]
fn reads_atoms() {
    assert!(matches!(read_one("abc").unwrap(), Value::Symbol(s) if s == "abc"));
    assert!(matches!(read_one("true").unwrap(), Value::Bool(true)));
    assert!(matches!(read_one("false").unwrap(), Value::Bool(false)));
    assert!(matches!(read_one("nil").unwrap(), Value::Nil));
    assert!(matches!(read_one(":key").unwrap(), Value::Keyword(s) if s == "key"));
    assert!(matches!(read_one("\"hi\"").unwrap(), Value::Str(s) if s == "hi"));
    match read_one("-12.5").unwrap() {
        Value::Number(n) => {
            assert_eq!(f64::from_bits(n.bits), -12.5);
            assert_eq!(n.text, "-12.5");
        }
        other => panic!("unexpected value {}", other.to_text()),
    }
}

#[test]
fn minus_is_a_symbol_unless_a_digit_follows() {
    assert!(matches!(read_one("-").unwrap(), Value::Symbol(s) if s == "-"));
    assert!(matches!(read_one("-x").unwrap(), Value::Symbol(s) if s == "-x"));
    assert!(matches!(read_one("-7").unwrap(), Value::Number(_)));
    assert_eq!(text_of("(- 3 -4)"), "(- 3 -4)");
}

#[test]
fn symbol_characters() {
    for c in "abzAZ+-*/<>=!?&%|_".chars() {
        assert!(is_symbol_start(c), "{}", c);
        assert!(is_symbol_char(c), "{}", c);
    }
    for c in "0189.".chars() {
        assert!(!is_symbol_start(c), "{}", c);
        assert!(is_symbol_char(c), "{}", c);
    }
    for c in " (){}[]\"':;,~`#@^\u{e9}".chars() {
        assert!(!is_symbol_start(c), "{}", c);
        assert!(!is_symbol_char(c), "{}", c);
    }
    assert!(matches!(read_one("a.b-c?").unwrap(), Value::Symbol(s) if s == "a.b-c?"));
    assert!(matches!(read_one("my.ns/name").unwrap(), Value::Symbol(s) if s == "my.ns/name"));
}

#[test]
fn string_escapes() {
    assert!(matches!(read_one(r#""a\nb""#).unwrap(), Value::Str(s) if s == "a\nb"));
    assert!(matches!(read_one(r#""a\tb\rc""#).unwrap(), Value::Str(s) if s == "a\tb\rc"));
    assert!(matches!(read_one(r#""q\"q""#).unwrap(), Value::Str(s) if s == "q\"q"));
    assert!(matches!(read_one(r#""b\\s""#).unwrap(), Value::Str(s) if s == "b\\s"));
    assert!(matches!(read_one(r#""\x""#).unwrap(), Value::Str(s) if s == "\\x"));
    assert!(matches!(read_one("\"\"").unwrap(), Value::Str(s) if s.is_empty()));
    assert!(matches!(read_one("\"(not ; a comment)\"").unwrap(), Value::Str(s) if s == "(not ; a comment)"));
}

#[test]
fn whitespace_commas_and_comments() {
    assert_eq!(text_of("  ( 1,2 ,,3\t\n4\r) ; the rest"), "(1 2 3 4)");
    assert_eq!(text_of("; first line\n(a ; inside\n b)"), "(a b)");
    assert_eq!(read_forms("; nothing here").unwrap().len(), 0);
}

#[test]
fn collections() {
    assert_eq!(text_of("()"), "()");
    assert_eq!(text_of("[]"), "[]");
    assert_eq!(text_of("{}"), "{}");
    assert_eq!(text_of("(a [b {:c (d)}] \"e\")"), "(a [b {:c (d)}] \"e\")");
    match read_one("{:a 1 \"b c\" 2}").unwrap() {
        Value::Dict(pairs) => {
            assert_eq!(pairs.len(), 2);
            assert_eq!(pairs[0].0, "a");
            assert_eq!(pairs[1].0, "b c");
        }
        other => panic!("unexpected value {}", other.to_text()),
    }
}

#[test]
fn later_map_entry_replaces_earlier() {
    match read_one("{:a 1 :b 2 :a 3}").unwrap() {
        Value::Dict(pairs) => {
            assert_eq!(pairs.len(), 2);
            assert_eq!(pairs[0].0, "a");
            assert_eq!(pairs[0].1.to_text(), "3");
            assert_eq!(pairs[1].0, "b");
        }
        other => panic!("unexpected value {}", other.to_text()),
    }
}

#[test]
fn reader_shorthands() {
    assert_eq!(text_of("'x"), "(quote x)");
    assert_eq!(text_of("`(a ~b)"), "(quasiquote (a (unquote b)))");
    assert_eq!(text_of("''x"), "(quote (quote x))");
    assert_eq!(text_of("'(1 2)"), "(quote (1 2))");
}

#[test]
fn lexical_errors() {
    assert_eq!(parse_failure("\"open"), "Unterminated string");
    assert_eq!(parse_failure("\"ends with backslash\\"), "Unterminated string");
    assert_eq!(parse_failure(": x"), "Invalid keyword");
    assert_eq!(parse_failure(":"), "Invalid keyword");
    assert_eq!(parse_failure("#"), "Unexpected character: #");
    assert_eq!(parse_failure("(a @ b)"), "Unexpected character: @");
    assert_eq!(parse_failure("\u{e9}"), "Unexpected character: \u{e9}");
}

#[test]
fn syntax_errors() {
    assert_eq!(parse_failure(""), "Empty input");
    assert_eq!(parse_failure("   ; only a comment"), "Empty input");
    assert_eq!(parse_failure("(a b"), "Unterminated list");
    assert_eq!(parse_failure("[a b"), "Unterminated vector");
    assert_eq!(parse_failure("{:a 1"), "Unterminated map");
    assert_eq!(parse_failure("{:a"), "Map missing value for key");
    assert_eq!(parse_failure("{1 2}"), "Map keys must be keywords or strings");
    assert_eq!(parse_failure("{a 2}"), "Map keys must be keywords or strings");
    assert_eq!(parse_failure("{:a}"), "Unexpected token: RightBrace");
    assert_eq!(parse_failure(")"), "Unexpected token: RightParen");
    assert_eq!(parse_failure("(a ]"), "Unexpected token: RightBracket");
    assert_eq!(parse_failure("'"), "Unexpected end of input");
    assert_eq!(parse_failure("a b"), "Extra input after expression");
    assert_eq!(parse_failure("(a) (b)"), "Extra input after expression");
    assert_eq!(parse_failure("1.2.3"), "Invalid number: 1.2.3");
    assert_eq!(parse_failure("(+ 1 2..)"), "Invalid number: 2..");
}

#[test]
fn number_without_numeral_is_invalid() {
    let e = read("1.5", &Vec::new()).unwrap_err();
    assert_eq!(e.kind, ErrorKind::ParseError);
    assert_eq!(e.message, "Invalid number: 1.5");
    let table = vec![("1.5".to_string(), number(1.5))];
    assert_eq!(read("1.5", &table).unwrap().to_text(), "1.5");
    assert_eq!(read("(1.5 1.5)", &table).unwrap().to_text(), "(1.5 1.5)");
    assert_eq!(read("(1.5 2.5)", &table).unwrap_err().message, "Invalid number: 2.5");
    assert_eq!(
        read("1234567890123456", &Vec::new()).unwrap_err().message,
        "Invalid number: 1234567890123456"
    );
}

#[test]
fn whole_numbers_are_read_without_a_table() {
    let none: Vec<(String, Number)> = Vec::new();
    for (text, value) in [
        ("0", 0.0f64),
        ("7", 7.0),
        ("-7", -7.0),
        ("007", 7.0),
        ("-0", -0.0),
        ("1000", 1000.0),
        ("999999999999999", 999999999999999.0),
        ("-999999999999999", -999999999999999.0),
        ("123456789012345", 123456789012345.0),
        ("4294967296", 4294967296.0),
        ("1", 1.0),
        ("2", 2.0),
        ("3", 3.0),
    ] {
        match read(text, &none).unwrap() {
            Value::Number(n) => {
                assert_eq!(n.bits, value.to_bits(), "{}", text);
                assert_eq!(n.text, render(value), "{}", text);
            }
            other => panic!("unexpected value {}", other.to_text()),
        }
    }
    let wrong = vec![("12".to_string(), number(13.0))];
    assert_eq!(read("12", &wrong).unwrap().to_text(), "12");
    assert_eq!(read("(+ 1 (* 2 -3))", &none).unwrap().to_text(), "(+ 1 (* 2 -3))");
}

#[test]
fn bits_of_whole_numbers() {
    let mut m: u64 = 1;
    while m < (1u64 << 53) {
        for n in [m - 1, m, m + 1, m + m / 3] {
            if n < (1u64 << 53) {
                assert_eq!(cortado::number::whole_number_bits(n, false), (n as f64).to_bits());
                assert_eq!(cortado::number::whole_number_bits(n, true), (-(n as f64)).to_bits());
            }
        }
        m *= 2;
    }
    assert!(cortado::parser::read_whole("12").is_some());
    assert!(cortado::parser::read_whole("-").is_none());
    assert!(cortado::parser::read_whole("").is_none());
    assert!(cortado::parser::read_whole("1.0").is_none());
    assert!(cortado::parser::read_whole("1234567890123456").is_none());
    assert!(cortado::parser::read_whole("12a").is_none());
}

#[test]
fn spellings_of_numbers() {
    assert_eq!(number_spellings("(+ 1 -2.5 x \"3\" 4.) ; 5"), vec!["1", "-2.5", "4."]);
    assert_eq!(number_spellings("(1 \"open"), Vec::<String>::new());
    assert_eq!(number_spellings("a-1 -b 1-2"), vec!["1", "-2"]);
}

#[test]
fn tokens() {
    let tokens = tokenize("(a :b \"c\" 1 true nil ['~`]{})").unwrap();
    let names: Vec<String> = tokens.iter().map(|t| format!("{:?}", t)).collect();
    assert_eq!(
        names,
        vec![
            "LeftParen", "Symbol(\"a\")", "Keyword(\"b\")", "Str(\"c\")", "Number(\"1\")",
            "Bool(true)", "Nil", "LeftBracket", "Quote", "Tilde", "Backquote", "RightBracket",
            "LeftBrace", "RightBrace", "RightParen",
        ]
    );
    assert!(matches!(tokenize("").unwrap().len(), 0));
    assert!(matches!(&tokenize("truex").unwrap()[0], Token::Symbol(s) if s == "truex"));
}

#[test]
fn reads_all_forms() {
    let forms = read_forms("(def x 1) x ; done\n[2]").unwrap();
    let texts: Vec<String> = forms.iter().map(|f| f.to_text()).collect();
    assert_eq!(texts, vec!["(def x 1)", "x", "[2]"]);
    assert_eq!(read_forms("(a) (b").unwrap_err().message, "Unterminated list");
    assert_eq!(read_forms("(a) )").unwrap_err().message, "Unexpected token: RightParen");
}

#[test]
fn prints_every_variant() {
    assert_eq!(Value::Symbol("s".to_string()).to_text(), "s");
    assert_eq!(num(3.0).to_text(), "3");
    assert_eq!(num(-0.5).to_text(), "-0.5");
    assert_eq!(Value::Bool(true).to_text(), "true");
    assert_eq!(Value::Bool(false).to_text(), "false");
    assert_eq!(Value::Nil.to_text(), "nil");
    assert_eq!(Value::Str("a\"b\\c\nd".to_string()).to_text(), "\"a\\\"b\\\\c\nd\"");
    assert_eq!(Value::List(vec![]).to_text(), "()");
    assert_eq!(Value::List(vec![num(1.0), Value::Nil]).to_text(), "(1 nil)");
    assert_eq!(Value::Vector(vec![Value::Vector(vec![])]).to_text(), "[[]]");
    assert_eq!(
        Value::Dict(vec![
            ("a".to_string(), num(1.0)),
            ("two words".to_string(), Value::Nil),
            ("".to_string(), Value::Bool(true)),
        ])
        .to_text(),
        "{:a 1 \"two words\" nil \"\" true}"
    );
    assert_eq!(Value::Keyword("k".to_string()).to_text(), ":k");
    assert_eq!(Value::Uninitialized.to_text(), "#<uninitialized>");
    assert_eq!(Value::IOResource(cortado::IOResource::Reader(0)).to_text(), "#<reader>");
    assert_eq!(Value::IOResource(cortado::IOResource::Writer(0)).to_text(), "#<writer>");
    assert_eq!(Value::IOResource(cortado::IOResource::InputStream(0)).to_text(), "#<input-stream>");
    assert_eq!(Value::IOResource(cortado::IOResource::OutputStream(0)).to_text(), "#<output-stream>");
    assert_eq!(
        Value::Function(cortado::Function::Native("first".to_string())).to_text(),
        "#<native-function>"
    );
    assert_eq!(shown("(fn [a b] a)"), "#<function(a b)>");
    assert_eq!(shown("(fn [] 1)"), "#<function()>");
    assert_eq!(shown("(defmacro m [x] x)"), "#<macro(x)>");
}

#[test]
fn printed_values_read_back() {
    for text in [
        "a", "-", "a.b/c-d", ":k", "\"s\"", "\"with \\\"quotes\\\" and \\\\ backslash\"", "true",
        "false", "nil", "12", "-0.25", "()", "[]", "{}", "(a (b [c {:d \"e\" \"f g\" 1}]))",
        "(quote x)", "(quasiquote (a (unquote b)))",
    ] {
        let v = read_one(text).unwrap();
        let printed = v.to_text();
        assert_eq!(printed, text);
        let again = read_one(&printed).unwrap();
        assert_eq!(again.to_text(), printed);
        assert!(cortado::equality::value_eq(&v, &again));
    }
    let newline = Value::Str("line\nbreak\ttab".to_string());
    let again = read_one(&newline.to_text()).unwrap();
    assert!(cortado::equality::value_eq(&newline, &again));
}

#[test]
fn counts_parens() {
    assert_eq!(count_parens(""), 0);
    assert_eq!(count_parens("(a (b c)"), 1);
    assert_eq!(count_parens("(a))"), -1);
    assert_eq!(count_parens("(a \"(\" b)"), 0);
    assert_eq!(count_parens("(a \"x\\\"(\" b"), 1);
    assert_eq!(count_parens("\"\\\\\" ("), 1);
    assert_eq!(count_parens("\\( ("), 2);
    assert_eq!(count_parens("[({"), 1);
}
