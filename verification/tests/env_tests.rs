#![allow(dead_code)]
use cortado::{
    create_default_env, eval, number_spellings, read, read_all_forms, ArithOp, Env, ErrorKind,
    EvalError, Host, HostRequest, Number, Value,
};

struct TestHost {
    out: String,
    files: Vec<(String, String)>,
}

fn render(n: f64) -> String {
    if n.fract() == 0.0 && n.abs() < 1e15 {
        format!("{:.0}", n)
    } else {
        format!("{}", n)
    }
}

fn number(n: f64) -> Number {
    Number { bits: n.to_bits(), text: render(n) }
}

fn num(n: f64) -> Value {
    Value::Number(number(n))
}

fn read_forms(text: &str) -> Result<Vec<Value>, EvalError> {
    let mut table: Vec<(String, Number)> = Vec::new();
    for spelling in number_spellings(text) {
        if let Ok(n) = spelling.parse::<f64>() {
            table.push((spelling, number(n)));
        }
    }
    read_all_forms(text, &table)
}

fn read_one(text: &str) -> Result<Value, EvalError> {
    let mut table: Vec<(String, Number)> = Vec::new();
    for spelling in number_spellings(text) {
        if let Ok(n) = spelling.parse::<f64>() {
            table.push((spelling, number(n)));
        }
    }
    read(text, &table)
}

impl Host for TestHost {
    fn answer(&mut self, request: &HostRequest) -> Result<Value, EvalError> {
        match request {
            HostRequest::Arith { op, left, right } => {
                let a = f64::from_bits(left.bits);
                let b = f64::from_bits(right.bits);
                let r = match op {
                    ArithOp::Add => a + b,
                    ArithOp::Sub => a - b,
                    ArithOp::Mul => a * b,
                    ArithOp::Div => a / b,
                    ArithOp::Rem => a % b,
                };
                Ok(num(r))
            }
            HostRequest::Count { count } => Ok(num(*count as f64)),
            HostRequest::Emit { text } => {
                self.out.push_str(text);
                Ok(Value::Nil)
            }
            HostRequest::Source { path } => {
                for (name, content) in &self.files {
                    if name == path {
                        return match read_forms(content) {
                            Ok(forms) => Ok(Value::List(forms)),
                            Err(e) => Err(EvalError {
                                kind: ErrorKind::ParseError,
                                message: format!("Parse error in '{}': {}", path, e.message),
                            }),
                        };
                    }
                }
                Err(EvalError {
                    kind: ErrorKind::IOFailure,
                    message: format!("Failed to read file '{}': not found", path),
                })
            }
            HostRequest::Native { name, .. } => Err(EvalError {
                kind: ErrorKind::UndefinedSymbol,
                message: format!("No native procedure {}", name),
            }),
        }
    }
}

fn host() -> TestHost {
    TestHost { out: String::new(), files: Vec::new() }
}

fn run_with(host: &mut TestHost, env: &mut Env, text: &str) -> Result<Value, EvalError> {
    let mut last = Value::Nil;
    for form in read_forms(text)? {
        last = eval(&form, env, host)?;
    }
    Ok(last)
}

fn run(text: &str) -> Result<Value, EvalError> {
    let mut env = create_default_env();
    run_with(&mut host(), &mut env, text)
}

fn shown(text: &str) -> String {
    match run(text) {
        Ok(v) => v.to_text(),
        Err(e) => format!("error: {}", e.message),
    }
}

fn failure(text: &str) -> (ErrorKind, String) {
    match run(text) {
        Ok(v) => panic!("unexpected value {}", v.to_text()),
        Err(e) => (e.kind, e.message),
    }
}


fn text(v: Option<Value>) -> String {
    match v {
        Some(v) => v.to_text(),
        None => "none".to_string(),
    }
}

#[test]
fn new_env_is_empty() {
    let env = Env::new();
    assert_eq!(env.get_namespace(), "user");
    assert!(env.get("x").is_none());
    assert!(!env.is_namespace_loaded("user"));
    assert!(env.resolve_alias("a").is_none());
    assert!(env.parent.is_none());
    assert!(env.data.is_empty());
}

#[test]
fn set_and_get() {
    let mut env = Env::new();
    env.set("x".to_string(), num(1.0));
    env.set("y".to_string(), num(2.0));
    env.set("x".to_string(), num(3.0));
    assert_eq!(text(env.get("x")), "3");
    assert_eq!(text(env.get("y")), "2");
    assert_eq!(text(env.get("z")), "none");
    assert_eq!(env.data.len(), 2);
}

#[test]
fn child_sees_parent_and_shadows_it() {
    let mut parent = Env::new();
    parent.set("x".to_string(), num(1.0));
    parent.set("y".to_string(), num(2.0));
    parent.set_namespace("app".to_string());
    parent.add_loaded_namespace("lib".to_string());
    parent.add_alias("l".to_string(), "lib".to_string());
    let mut child = Env::with_parent(parent);
    assert_eq!(child.get_namespace(), "app");
    assert!(child.is_namespace_loaded("lib"));
    assert_eq!(child.resolve_alias("l").map(|s| s.as_str()), Some("lib"));
    assert!(child.data.is_empty());
    child.set("x".to_string(), num(10.0));
    assert_eq!(text(child.get("x")), "10");
    assert_eq!(text(child.get("y")), "2");
    assert_eq!(text(child.parent.as_ref().unwrap().get("x")), "1");
}

#[test]
fn update_rebinds_nearest_frame() {
    let mut parent = Env::new();
    parent.set("x".to_string(), num(1.0));
    parent.set("y".to_string(), num(2.0));
    let mut child = Env::with_parent(parent);
    child.set("x".to_string(), num(10.0));
    assert!(child.update("x", num(11.0)).is_ok());
    assert!(child.update("y", num(22.0)).is_ok());
    assert_eq!(text(child.get("x")), "11");
    assert_eq!(text(child.get("y")), "22");
    let parent = child.parent.as_ref().unwrap();
    assert_eq!(text(parent.get("x")), "1");
    assert_eq!(text(parent.get("y")), "22");
    let e = child.update("z", num(0.0)).unwrap_err();
    assert_eq!(e.message, "Variable z not found for update");
    assert_eq!(text(child.get("z")), "none");
}

#[test]
fn namespaced_set_and_get() {
    let mut env = Env::new();
    env.set_namespaced("f".to_string(), num(1.0));
    assert_eq!(text(env.get("user/f")), "1");
    assert_eq!(text(env.get("f")), "none");
    assert_eq!(text(env.get_with_namespaces("f")), "1");
    env.set_namespaced("other/g".to_string(), num(2.0));
    assert_eq!(text(env.get("other/g")), "2");
    assert_eq!(text(env.get_with_namespaces("other/g")), "2");
    assert_eq!(text(env.get_with_namespaces("g")), "none");
    env.set_namespace("mine".to_string());
    assert_eq!(env.get_namespace(), "mine");
    env.set_namespaced("f".to_string(), num(3.0));
    assert_eq!(text(env.get("mine/f")), "3");
}

#[test]
fn namespace_resolution_order() {
    let mut env = Env::new();
    env.set("f".to_string(), num(4.0));
    assert_eq!(text(env.get_with_namespaces("f")), "4");
    env.set("user/f".to_string(), num(3.0));
    assert_eq!(text(env.get_with_namespaces("f")), "3");
    env.set("core/f".to_string(), num(2.0));
    assert_eq!(text(env.get_with_namespaces("f")), "3");
    env.set_namespace("mine".to_string());
    assert_eq!(text(env.get_with_namespaces("f")), "2");
    env.set("mine/f".to_string(), num(1.0));
    assert_eq!(text(env.get_with_namespaces("f")), "1");
}

#[test]
fn aliases() {
    let mut env = Env::new();
    env.set("long.name/f".to_string(), num(1.0));
    env.set("s/f".to_string(), num(2.0));
    assert_eq!(text(env.get_with_aliases("s/f")), "2");
    env.add_alias("s".to_string(), "long.name".to_string());
    assert_eq!(env.resolve_alias("s").map(|s| s.as_str()), Some("long.name"));
    assert_eq!(text(env.get_with_aliases("s/f")), "1");
    assert_eq!(text(env.get_with_aliases("s/g")), "none");
    assert_eq!(text(env.get_with_aliases("long.name/f")), "1");
    env.add_alias("s".to_string(), "elsewhere".to_string());
    assert_eq!(env.resolve_alias("s").map(|s| s.as_str()), Some("elsewhere"));
    assert_eq!(env.namespace_aliases.len(), 1);
    let child = Env::with_parent(env);
    assert_eq!(child.resolve_alias("s").map(|s| s.as_str()), Some("elsewhere"));
    assert!(child.resolve_alias("t").is_none());
}

#[test]
fn alias_uses_first_slash() {
    let mut env = Env::new();
    env.add_alias("a".to_string(), "ns".to_string());
    env.set("ns/b/c".to_string(), num(1.0));
    assert_eq!(text(env.get_with_aliases("a/b/c")), "1");
}

#[test]
fn loaded_namespaces() {
    let mut env = Env::new();
    env.add_loaded_namespace("a.b".to_string());
    env.add_loaded_namespace("a.b".to_string());
    env.add_loaded_namespace("c".to_string());
    assert!(env.is_namespace_loaded("a.b"));
    assert!(env.is_namespace_loaded("c"));
    assert!(!env.is_namespace_loaded("a"));
    assert_eq!(env.loaded_namespaces.len(), 2);
}

#[test]
fn namespace_functions() {
    let mut parent = Env::new();
    parent.set("m/a".to_string(), num(1.0));
    parent.set("other/b".to_string(), num(2.0));
    parent.set("m".to_string(), num(0.0));
    let mut child = Env::with_parent(parent);
    child.set("m/c".to_string(), num(3.0));
    child.set("mm/d".to_string(), num(4.0));
    let found = child.get_namespace_functions("m");
    let names: Vec<&str> = found.iter().map(|(k, _)| k.as_str()).collect();
    assert_eq!(names, vec!["m/c", "m/a"]);
    assert_eq!(found[1].1.to_text(), "1");
    assert!(child.get_namespace_functions("none").is_empty());
}

#[test]
fn clone_is_a_deep_copy() {
    let mut env = Env::new();
    env.set("x".to_string(), Value::List(vec![num(1.0)]));
    let mut copy = env.clone();
    copy.set("x".to_string(), num(2.0));
    copy.set("y".to_string(), num(3.0));
    assert_eq!(text(env.get("x")), "(1)");
    assert_eq!(text(env.get("y")), "none");
    assert_eq!(text(copy.get("x")), "2");
}

#[test]
fn default_env_binds_the_natives() {
    let env = create_default_env();
    for name in [
        "+", "-", "*", "/", "%", "=", "not=", "<", ">", "<=", ">=", "not", "min", "max", "inc",
        "dec", "abs", "square", "cube", "zero?", "pos?", "neg?", "even?", "odd?", "nil?", "true?",
        "false?", "some?", "string?", "number?", "vector?", "list?", "map?", "empty?", "identity",
        "cons", "first", "rest", "list", "concat", "apply", "contains?", "get", "assoc", "str",
        "str-length", "print", "println", "printf", "now", "now-ms", "sleep-ms", "constantly",
        "time", "read-file", "write-file", "slurp", "spit", "copy", "reader", "writer",
        "input-stream", "output-stream", "read-line", "file-exists?", "directory?", "file-size",
        "copy-file", "move-file", "delete-file", "list-dir", "create-dir", "delete-dir",
    ] {
        match env.get(name) {
            Some(Value::Function(cortado::Function::Native(n))) => assert_eq!(n, name),
            _ => panic!("{} is not bound to a native", name),
        }
    }
    assert_eq!(text(env.get("when")), "#<macro(condition body)>");
    assert_eq!(text(env.get("unless")), "#<macro(condition body)>");
    assert_eq!(env.get_namespace(), "user");
    assert_eq!(env.data.len(), 82);
    match env.get("unless") {
        Some(Value::Function(cortado::Function::Macro { env: captured, body, .. })) => {
            assert_eq!(body.to_text(), "(if condition nil body)");
            assert!(captured.get("when").is_some());
            assert!(captured.get("unless").is_none());
            assert!(captured.get("square").is_none());
        }
        _ => panic!("unless is not a macro"),
    }
}
