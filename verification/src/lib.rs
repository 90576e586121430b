//! Cortado: the core of a small Lisp in the Clojure tradition.
//!
//! Source text is read into values ([`read`]); a value is evaluated in an
//! environment ([`eval`]) by a machine that moves in small steps
//! ([`Machine`]) and asks a [`Host`] for what lies outside: output, files,
//! and the arithmetic that is not on whole numbers.
pub mod text;
pub mod value;
pub mod number;
pub mod arith;
pub mod env;
pub mod reader;
pub mod parser;
pub mod printer;
pub mod machine;
pub mod semantics;
pub mod special;
pub mod builtins;
pub mod equality;
pub mod hashing;
pub mod natives;
pub mod format;
pub mod step;
pub mod forms;
pub mod eval;
pub mod defaults;
pub mod repl;
pub mod laws;
pub mod roundtrip;
pub mod wellformed;
pub mod soundness;

pub use defaults::create_default_env;
pub use eval::{eval, macroexpand, Host};
pub use machine::{ArithOp, Control, Frame, HostRequest, Machine};
pub use repl::count_parens;
pub use parser::{number_spellings, read, read_all_forms};
pub use reader::{is_symbol_char, is_symbol_start, tokenize, Token};
pub use value::{Env, ErrorKind, EvalError, Function, IOResource, Number, Value};
