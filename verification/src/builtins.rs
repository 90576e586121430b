//! The native procedures that re-enter the machine or need the host:
//! arithmetic, output, `apply` and `time`; and the way from a native's name
//! to what it does.
use vstd::prelude::*;
use crate::arith::{exact, exact_arith};
use crate::machine::{
    lemma_conts_push, ArithOp, Ask, Cont, Control, Focus, Frame, HostRequest, Machine, State,
};
use crate::natives::{pure, run_pure};
use crate::number::{bits_zero, is_zero, minus_one, one, whole, whole_number_bits, zero};
use crate::printer::{push_items, push_value, show, show_items};
use crate::semantics::{arity_message, bind_all};
use crate::step::{arity_text, bind_params, Rest};
use crate::text::{decimal_of, join2, owned, Text};
use crate::value::{
    forms, lemma_views, Closure, Env, ErrorKind, Form, Function, Number, Numeral, Value,
};

verus! {

/// What an operand of arithmetic has to be.
pub enum Operand {
    /// A number.
    Number,
    /// A number other than zero.
    Divisor,
}

/// Whether `f` is an operand as `check` asks for.
pub open spec fn acceptable(check: Operand, f: Form) -> bool {
    match f {
        Form::Number(n) => check is Number || !is_zero(n.bits),
        _ => false,
    }
}

/// The position of the first of `args`, from `from` on, that is not
/// acceptable; `args.len()` where all are.
pub open spec fn first_unacceptable(args: Seq<Form>, from: nat, check: Operand) -> nat
    decreases args.len() - from,
{
    if from >= args.len() {
        args.len()
    } else if !acceptable(check, args[from as int]) {
        from
    } else {
        first_unacceptable(args, from + 1, check)
    }
}

/// `left op right`: the library computes it where it is arithmetic on
/// whole numbers that comes out exactly, and asks the host for it
/// otherwise.
pub open spec fn arith(s: State, op: ArithOp, left: Numeral, right: Numeral) -> State {
    match exact(op, left.bits, right.bits) {
        Some(n) => s.to(Focus::Return(Form::Number(n))),
        None => s.to(Focus::Request(Ask::Arith { op, left, right })),
    }
}

/// `name` requires numbers, got this.
pub open spec fn not_a_number(s: State, name: Text, got: Form) -> State {
    s.fail(ErrorKind::TypeError, name + " requires numbers, got "@ + show(got))
}

/// Folds `op` over the operands from `from` on, starting with `total`: one
/// request to the host for each operand.
pub open spec fn fold_from(
    s: State,
    op: ArithOp,
    total: Numeral,
    operands: Seq<Form>,
    from: nat,
) -> State {
    if from >= operands.len() {
        s.to(Focus::Return(Form::Number(total)))
    } else {
        match operands[from as int] {
            Form::Number(n) => arith(
                s.push(Cont::Fold { op, operands, next: from + 1 }),
                op,
                total,
                n,
            ),
            _ => s.fail(ErrorKind::TypeError, "Arithmetic requires numbers"@),
        }
    }
}

/// A running total came back from the host.
pub open spec fn folded(s: State, op: ArithOp, operands: Seq<Form>, next: nat, v: Form) -> State {
    match v {
        Form::Number(total) => fold_from(s, op, total, operands, next),
        _ => s.fail(ErrorKind::TypeError, "Arithmetic requires numbers"@),
    }
}

/// `(+ ...)` and `(* ...)`: the sum from zero, the product from one.
pub open spec fn sum_or_product(s: State, name: Text, op: ArithOp, unit: Numeral, args: Seq<Form>)
    -> State {
    let bad = first_unacceptable(args, 0, Operand::Number);
    if bad < args.len() {
        not_a_number(s, name, args[bad as int])
    } else {
        fold_from(s, op, unit, args, 0)
    }
}

/// `(- x)` negates; `(- x y ...)` subtracts the others from the first.
pub open spec fn difference(s: State, args: Seq<Form>) -> State {
    let bad = first_unacceptable(args, 0, Operand::Number);
    if args.len() == 0 {
        s.fail(ErrorKind::ArityError, "- requires at least 1 argument"@)
    } else if bad < args.len() {
        not_a_number(s, "-"@, args[bad as int])
    } else if args.len() == 1 {
        arith(s, ArithOp::Mul, args[0]->Number_0, minus_one())
    } else {
        fold_from(s, ArithOp::Sub, args[0]->Number_0, args, 1)
    }
}

/// `(/ x y ...)`: the first divided by each of the others in turn; a zero
/// among the others is a failure.
pub open spec fn quotient(s: State, args: Seq<Form>) -> State {
    let bad = first_unacceptable(args, 1, Operand::Divisor);
    if args.len() < 2 {
        s.fail(ErrorKind::ArityError, "/ requires at least 2 arguments"@)
    } else if !(args[0] is Number) {
        not_a_number(s, "/"@, args[0])
    } else if bad < args.len() {
        if args[bad as int] is Number {
            s.fail(ErrorKind::DivideByZero, "Division by zero"@)
        } else {
            not_a_number(s, "/"@, args[bad as int])
        }
    } else {
        fold_from(s, ArithOp::Div, args[0]->Number_0, args, 1)
    }
}

/// `(% a b)`: the remainder; a zero divisor is a failure.
pub open spec fn remainder(s: State, args: Seq<Form>) -> State {
    if args.len() != 2 {
        s.fail(ErrorKind::ArityError, "% requires exactly 2 arguments"@)
    } else {
        match (args[0], args[1]) {
            (Form::Number(a), Form::Number(b)) => if is_zero(b.bits) {
                s.fail(ErrorKind::DivideByZero, "Modulo by zero"@)
            } else {
                arith(s, ArithOp::Rem, a, b)
            },
            _ => s.fail(ErrorKind::TypeError, "% requires numbers"@),
        }
    }
}

/// `inc`, `dec`, `square` and `cube`: one number in, arithmetic on it out.
pub open spec fn unary(s: State, name: Text, args: Seq<Form>) -> State {
    if args.len() != 1 {
        s.fail(ErrorKind::ArityError, name + " requires exactly 1 argument"@)
    } else {
        match args[0] {
            Form::Number(n) => if name == "inc"@ {
                arith(s, ArithOp::Add, n, one())
            } else if name == "dec"@ {
                arith(s, ArithOp::Sub, n, one())
            } else if name == "square"@ {
                arith(s, ArithOp::Mul, n, n)
            } else {
                arith(s.push(Cont::Fold { op: ArithOp::Mul, operands: args, next: 0 }), ArithOp::Mul, n, n)
            },
            _ => s.fail(ErrorKind::TypeError, name + " requires a number"@),
        }
    }
}

/// `(str-length s)`: the length of a string in bytes. A length of
/// `10^15` or more is left to the host to make a number of.
pub open spec fn str_length(s: State, args: Seq<Form>) -> State {
    if args.len() != 1 {
        s.fail(ErrorKind::ArityError, "str-length requires exactly 1 argument"@)
    } else {
        match args[0] {
            Form::Str(text) => {
                let count = (vstd::utf8::encode_utf8(text).len() as usize) as nat;
                if count < 1_000_000_000_000_000 {
                    s.to(Focus::Return(Form::Number(whole(count, false))))
                } else {
                    s.to(Focus::Request(Ask::Count { count }))
                }
            },
            _ => s.fail(ErrorKind::TypeError, "str-length requires a string"@),
        }
    }
}

/// A form as `println` writes it: a string without quotes, anything else
/// as source text.
pub open spec fn plain(f: Form) -> Text {
    match f {
        Form::Str(s) => s,
        _ => show(f),
    }
}

/// The first `n` of `items` as `println` writes them, one space between
/// neighbours.
pub open spec fn plain_items(items: Seq<Form>, n: nat) -> Text
    decreases n,
{
    if n == 0 || n > items.len() {
        Seq::empty()
    } else if n == 1 {
        plain(items[0])
    } else {
        plain_items(items, (n - 1) as nat) + seq![' '] + plain(items[n - 1])
    }
}

/// `print` writes its arguments as source text, `println` strings without
/// quotes; both put one space between neighbours and end the line, and
/// both give `nil`.
pub open spec fn emit(s: State, name: Text, args: Seq<Form>) -> State {
    let line = if name == "print"@ {
        show_items(args, args.len())
    } else {
        plain_items(args, args.len())
    };
    s.push(Cont::Discard).to(Focus::Request(Ask::Emit { text: line + seq!['\n'] }))
}

/// The arguments that a list, a vector or `nil` holds.
pub open spec fn spread(f: Form) -> Option<Seq<Form>> {
    match f {
        Form::List(items) => Some(items),
        Form::Vector(items) => Some(items),
        Form::Nil => Some(Seq::empty()),
        _ => None,
    }
}

/// `(apply f args)`: `f` called with the items of `args`. A user function
/// runs in its own environment with the parameters bound there; it is not
/// counted as entered.
pub open spec fn apply(s: State, args: Seq<Form>) -> State {
    if args.len() != 2 {
        s.fail(ErrorKind::ArityError, "apply requires exactly 2 arguments"@)
    } else {
        match spread(args[1]) {
            None => s.fail(
                ErrorKind::TypeError,
                "apply requires a list or vector as second argument"@,
            ),
            Some(call_args) => match args[0] {
                Form::Function(Closure::Native(_)) => s.to(
                    Focus::Invoke { func: args[0], args: call_args, name: None },
                ),
                Form::Function(Closure::UserDefined { params, body, env }) => if params.len()
                    != call_args.len() {
                    s.fail(
                        ErrorKind::ArityError,
                        arity_message("Function"@, params.len(), call_args.len()),
                    )
                } else {
                    State {
                        focus: Focus::Eval(*body),
                        env: bind_all(env, params, call_args),
                        stack: s.stack.push(Cont::Restore { saved: s.env, leave: false }),
                        depth: s.depth,
                    }
                },
                Form::Function(Closure::Macro { .. }) => s.fail(
                    ErrorKind::TypeError,
                    "Cannot apply macro (use macroexpand instead)"@,
                ),
                _ => s.fail(ErrorKind::TypeError, "First argument to apply must be a function"@),
            },
        }
    }
}

/// `(time f)`: `f` called without arguments.
pub open spec fn time(s: State, args: Seq<Form>) -> State {
    if args.len() != 1 {
        s.fail(ErrorKind::ArityError, "time requires exactly 1 argument"@)
    } else {
        match args[0] {
            Form::Function(Closure::Native(_)) => s.to(
                Focus::Invoke { func: args[0], args: Seq::empty(), name: None },
            ),
            Form::Function(Closure::UserDefined { params, body, env }) => if params.len() != 0 {
                s.fail(ErrorKind::TypeError, "time requires a function with no parameters"@)
            } else {
                State {
                    focus: Focus::Eval(*body),
                    env,
                    stack: s.stack.push(Cont::Restore { saved: s.env, leave: false }),
                    depth: s.depth,
                }
            },
            _ => s.fail(ErrorKind::TypeError, "time requires a function"@),
        }
    }
}

/// The call of the native procedure `name`. What the library implements is
/// done here; any other name is a request to the host.
pub open spec fn native(s: State, name: Text, args: Seq<Form>) -> State {
    if name == "+"@ {
        sum_or_product(s, name, ArithOp::Add, zero(), args)
    } else if name == "*"@ {
        sum_or_product(s, name, ArithOp::Mul, one(), args)
    } else if name == "-"@ {
        difference(s, args)
    } else if name == "/"@ {
        quotient(s, args)
    } else if name == "%"@ {
        remainder(s, args)
    } else if name == "inc"@ || name == "dec"@ || name == "square"@ || name == "cube"@ {
        unary(s, name, args)
    } else if name == "str-length"@ {
        str_length(s, args)
    } else if name == "print"@ || name == "println"@ {
        emit(s, name, args)
    } else if name == "printf"@ {
        crate::format::printf(s, args)
    } else if name == "apply"@ {
        apply(s, args)
    } else if name == "time"@ {
        time(s, args)
    } else {
        match pure(name, args) {
            Some(Ok(v)) => s.to(Focus::Return(v)),
            Some(Err(e)) => s.to(Focus::Raise(e)),
            None => s.to(Focus::Request(Ask::Native { name, args })),
        }
    }
}

fn is_acceptable(check: &Operand, v: &Value) -> (b: bool)
    ensures
        b == acceptable(*check, v@),
{
    match v {
        Value::Number(n) => match check {
            Operand::Number => true,
            Operand::Divisor => !bits_zero(n.bits),
        },
        _ => false,
    }
}

/// The position of the first of `args`, from `from` on, that is not
/// acceptable.
fn find_unacceptable(args: &Vec<Value>, from: usize, check: Operand) -> (i: usize)
    ensures
        i == first_unacceptable(forms(args@), from as nat, check),
        i <= args@.len(),
        i < args@.len() ==> from <= i,
{
    let mut i: usize = from;
    while i < args.len() && is_acceptable(&check, &args[i])
        invariant
            first_unacceptable(forms(args@), i as nat, check) == first_unacceptable(
                forms(args@),
                from as nat,
                check,
            ),
            i < args@.len() ==> from <= i,
        decreases args.len() - i,
    {
        i += 1;
    }
    if i >= args.len() {
        args.len()
    } else {
        i
    }
}

fn fail_not_a_number(rest: Rest, name: &str, got: &Value, Ghost(s): Ghost<State>) -> (m: Machine)
    requires
        rest.of(s),
    ensures
        m@ == not_a_number(s, name@, got@),
{
    let mut message = owned(name);
    message.append(" requires numbers, got ");
    message.append(got.to_text().as_str());
    rest.fail(ErrorKind::TypeError, message, Ghost(s))
}

/// Computes `left op right`, or asks the host for it.
fn ask_arith(rest: Rest, op: ArithOp, left: Number, right: Number, Ghost(s): Ghost<State>) -> (m:
    Machine)
    requires
        rest.of(s),
    ensures
        m@ == arith(s, op, left@, right@),
{
    match exact_arith(op, &left, &right) {
        Some(n) => rest.give(Value::Number(n), Ghost(s)),
        None => rest.to(Control::Request(HostRequest::Arith { op, left, right }), Ghost(s)),
    }
}

/// Folds `op` over the operands from `from` on, starting with `total`.
pub(crate) fn fold_next(
    rest: Rest,
    op: ArithOp,
    total: Number,
    operands: Vec<Value>,
    from: usize,
    Ghost(s): Ghost<State>,
) -> (m: Machine)
    requires
        rest.of(s),
    ensures
        m@ == fold_from(s, op, total@, forms(operands@), from as nat),
{
    if from >= operands.len() {
        rest.give(Value::Number(total), Ghost(s))
    } else {
        let right = match &operands[from] {
            Value::Number(n) => Some(n.clone()),
            _ => None,
        };
        match right {
            Some(right) => {
                let frame = Frame::Fold { op, operands, next: from + 1 };
                ask_arith(rest.push(frame, Ghost(s)), op, total, right, Ghost(s.push(frame@)))
            },
            None => rest.fail(
                ErrorKind::TypeError,
                owned("Arithmetic requires numbers"),
                Ghost(s),
            ),
        }
    }
}

/// A running total came back from the host.
pub(crate) fn fold_on(
    rest: Rest,
    op: ArithOp,
    operands: Vec<Value>,
    next: usize,
    v: Value,
    Ghost(s): Ghost<State>,
) -> (m: Machine)
    requires
        rest.of(s),
    ensures
        m@ == folded(s, op, forms(operands@), next as nat, v@),
{
    match v {
        Value::Number(total) => fold_next(rest, op, total, operands, next, Ghost(s)),
        _ => rest.fail(ErrorKind::TypeError, owned("Arithmetic requires numbers"), Ghost(s)),
    }
}

fn number_at(args: &Vec<Value>, i: usize) -> (n: Number)
    requires
        i < args@.len(),
        args@[i as int]@ is Number,
    ensures
        n@ == args@[i as int]@->Number_0,
{
    match &args[i] {
        Value::Number(n) => n.clone(),
        _ => Number::zero(),
    }
}

proof fn lemma_all_acceptable(args: Seq<Form>, from: nat, check: Operand, i: int)
    requires
        first_unacceptable(args, from, check) >= args.len(),
        from <= i < args.len(),
    ensures
        acceptable(check, args[i]),
    decreases args.len() - from,
{
    if from < i {
        lemma_all_acceptable(args, from + 1, check, i);
    }
}

fn run_sum_or_product(
    rest: Rest,
    name: &str,
    op: ArithOp,
    unit: Number,
    args: Vec<Value>,
    Ghost(s): Ghost<State>,
) -> (m: Machine)
    requires
        rest.of(s),
    ensures
        m@ == sum_or_product(s, name@, op, unit@, forms(args@)),
{
    let bad = find_unacceptable(&args, 0, Operand::Number);
    if bad < args.len() {
        fail_not_a_number(rest, name, &args[bad], Ghost(s))
    } else {
        fold_next(rest, op, unit, args, 0, Ghost(s))
    }
}

fn run_difference(rest: Rest, args: Vec<Value>, Ghost(s): Ghost<State>) -> (m: Machine)
    requires
        rest.of(s),
    ensures
        m@ == difference(s, forms(args@)),
{
    let bad = find_unacceptable(&args, 0, Operand::Number);
    if args.len() == 0 {
        rest.fail(ErrorKind::ArityError, owned("- requires at least 1 argument"), Ghost(s))
    } else if bad < args.len() {
        fail_not_a_number(rest, "-", &args[bad], Ghost(s))
    } else {
        proof {
            lemma_all_acceptable(forms(args@), 0, Operand::Number, 0);
        }
        let first = number_at(&args, 0);
        if args.len() == 1 {
            ask_arith(rest, ArithOp::Mul, first, Number::minus_one(), Ghost(s))
        } else {
            fold_next(rest, ArithOp::Sub, first, args, 1, Ghost(s))
        }
    }
}

fn run_quotient(rest: Rest, args: Vec<Value>, Ghost(s): Ghost<State>) -> (m: Machine)
    requires
        rest.of(s),
    ensures
        m@ == quotient(s, forms(args@)),
{
    if args.len() < 2 {
        return rest.fail(
            ErrorKind::ArityError,
            owned("/ requires at least 2 arguments"),
            Ghost(s),
        );
    }
    let first = match &args[0] {
        Value::Number(n) => Some(n.clone()),
        _ => None,
    };
    match first {
        None => fail_not_a_number(rest, "/", &args[0], Ghost(s)),
        Some(first) => {
            let bad = find_unacceptable(&args, 1, Operand::Divisor);
            if bad < args.len() {
                match &args[bad] {
                    Value::Number(_) => rest.fail(
                        ErrorKind::DivideByZero,
                        owned("Division by zero"),
                        Ghost(s),
                    ),
                    _ => fail_not_a_number(rest, "/", &args[bad], Ghost(s)),
                }
            } else {
                fold_next(rest, ArithOp::Div, first, args, 1, Ghost(s))
            }
        },
    }
}

fn run_remainder(rest: Rest, args: Vec<Value>, Ghost(s): Ghost<State>) -> (m: Machine)
    requires
        rest.of(s),
    ensures
        m@ == remainder(s, forms(args@)),
{
    if args.len() != 2 {
        rest.fail(ErrorKind::ArityError, owned("% requires exactly 2 arguments"), Ghost(s))
    } else {
        match (&args[0], &args[1]) {
            (Value::Number(a), Value::Number(b)) => {
                if bits_zero(b.bits) {
                    rest.fail(ErrorKind::DivideByZero, owned("Modulo by zero"), Ghost(s))
                } else {
                    ask_arith(rest, ArithOp::Rem, a.clone(), b.clone(), Ghost(s))
                }
            },
            _ => rest.fail(ErrorKind::TypeError, owned("% requires numbers"), Ghost(s)),
        }
    }
}

fn run_unary(rest: Rest, name: &str, args: Vec<Value>, Ghost(s): Ghost<State>) -> (m: Machine)
    requires
        rest.of(s),
    ensures
        m@ == unary(s, name@, forms(args@)),
{
    if args.len() != 1 {
        rest.fail(ErrorKind::ArityError, join2(name, " requires exactly 1 argument"), Ghost(s))
    } else {
        let n = match &args[0] {
            Value::Number(n) => Some(n.clone()),
            _ => None,
        };
        match n {
            Some(n) => {
                if name.eq("inc") {
                    ask_arith(rest, ArithOp::Add, n, Number::one(), Ghost(s))
                } else if name.eq("dec") {
                    ask_arith(rest, ArithOp::Sub, n, Number::one(), Ghost(s))
                } else if name.eq("square") {
                    let right = n.clone();
                    ask_arith(rest, ArithOp::Mul, n, right, Ghost(s))
                } else {
                    let right = n.clone();
                    let frame = Frame::Fold { op: ArithOp::Mul, operands: args, next: 0 };
                    ask_arith(
                        rest.push(frame, Ghost(s)),
                        ArithOp::Mul,
                        n,
                        right,
                        Ghost(s.push(frame@)),
                    )
                }
            },
            None => rest.fail(ErrorKind::TypeError, join2(name, " requires a number"), Ghost(s)),
        }
    }
}

fn run_str_length(rest: Rest, args: Vec<Value>, Ghost(s): Ghost<State>) -> (m: Machine)
    requires
        rest.of(s),
    ensures
        m@ == str_length(s, forms(args@)),
{
    if args.len() != 1 {
        rest.fail(ErrorKind::ArityError, owned("str-length requires exactly 1 argument"), Ghost(s))
    } else {
        match &args[0] {
            Value::Str(text) => {
                let count = text.as_str().len();
                let wide: u64 = count as u64;
                if wide < 1_000_000_000_000_000 {
                    let n = Number {
                        bits: whole_number_bits(wide, false),
                        text: decimal_of(wide),
                    };
                    assert(n@.text =~= whole(count as nat, false).text);
                    rest.give(Value::Number(n), Ghost(s))
                } else {
                    rest.to(Control::Request(HostRequest::Count { count }), Ghost(s))
                }
            },
            _ => rest.fail(ErrorKind::TypeError, owned("str-length requires a string"), Ghost(s)),
        }
    }
}

/// Appends the items of `items` as `println` writes them to `out`.
fn push_plain_items(out: &mut String, items: &Vec<Value>)
    ensures
        final(out)@ == old(out)@ + plain_items(forms(items@), items@.len()),
{
    let mut i: usize = 0;
    assert(out@ + plain_items(forms(items@), 0) =~= out@);
    while i < items.len()
        invariant
            i <= items.len(),
            out@ == old(out)@ + plain_items(forms(items@), i as nat),
        decreases items.len() - i,
    {
        let ghost before = out@;
        if i > 0 {
            out.push(' ');
        }
        match &items[i] {
            Value::Str(s) => out.append(s.as_str()),
            other => push_value(out, other),
        }
        assert(out@ =~= old(out)@ + plain_items(forms(items@), (i + 1) as nat)) by {
            assert(forms(items@)[i as int] == items@[i as int]@);
            if i > 0 {
                assert(out@ =~= before + seq![' '] + plain(items@[i as int]@));
            } else {
                assert(before =~= old(out)@);
            }
        }
        i += 1;
    }
}

fn run_emit(rest: Rest, name: &str, args: Vec<Value>, Ghost(s): Ghost<State>) -> (m: Machine)
    requires
        rest.of(s),
    ensures
        m@ == emit(s, name@, forms(args@)),
{
    let mut text = String::new();
    if name.eq("print") {
        push_items(&mut text, &args);
    } else {
        push_plain_items(&mut text, &args);
    }
    text.push('\n');
    proof {
        let line = if name@ == "print"@ {
            show_items(forms(args@), args@.len())
        } else {
            plain_items(forms(args@), args@.len())
        };
        assert(text@ =~= line + seq!['\n']);
    }
    let frame = Frame::Discard;
    rest.push(frame, Ghost(s)).to(
        Control::Request(HostRequest::Emit { text }),
        Ghost(s.push(frame@)),
    )
}

/// The arguments that a list, a vector or `nil` holds.
fn spread_out(v: &Value) -> (r: Option<Vec<Value>>)
    ensures
        match r {
            Some(items) => spread(v@) == Some(forms(items@)),
            None => spread(v@) is None,
        },
{
    proof {
        lemma_views(*v);
    }
    match v {
        Value::List(items) => Some(crate::value::copy_values(items)),
        Value::Vector(items) => Some(crate::value::copy_values(items)),
        Value::Nil => {
            let items: Vec<Value> = Vec::new();
            assert(forms(items@) =~= Seq::empty());
            Some(items)
        },
        _ => None,
    }
}

/// The machine that evaluates `body` in `env` and comes back to the
/// environment of `rest` afterwards.
fn run_body(rest: Rest, body: Value, env: Env, Ghost(s): Ghost<State>) -> (m: Machine)
    requires
        rest.of(s),
    ensures
        m@ == (State {
            focus: Focus::Eval(body@),
            env: env@,
            stack: s.stack.push(Cont::Restore { saved: s.env, leave: false }),
            depth: s.depth,
        }),
{
    let Rest { env: saved, stack, depth } = rest;
    let mut stack = stack;
    let frame = Frame::Restore { saved, leave: false };
    proof {
        lemma_conts_push(stack@, frame);
    }
    stack.push(frame);
    Machine { control: Control::Eval(body), env, stack, depth }
}

fn run_apply(rest: Rest, args: Vec<Value>, Ghost(s): Ghost<State>) -> (m: Machine)
    requires
        rest.of(s),
    ensures
        m@ == apply(s, forms(args@)),
{
    if args.len() != 2 {
        return rest.fail(
            ErrorKind::ArityError,
            owned("apply requires exactly 2 arguments"),
            Ghost(s),
        );
    }
    proof {
        lemma_views(args@[0]);
        if args@[0] is Function {
            crate::value::lemma_function(args@[0]->Function_0);
        }
    }
    let call_args = match spread_out(&args[1]) {
        Some(items) => items,
        None => {
            return rest.fail(
                ErrorKind::TypeError,
                owned("apply requires a list or vector as second argument"),
                Ghost(s),
            );
        },
    };
    match &args[0] {
        Value::Function(Function::Native(_)) => rest.to(
            Control::Invoke { func: args[0].clone(), args: call_args, name: None },
            Ghost(s),
        ),
        Value::Function(Function::UserDefined { params, body, env }) => {
            if params.len() != call_args.len() {
                rest.fail(
                    ErrorKind::ArityError,
                    arity_text("Function", params.len(), call_args.len()),
                    Ghost(s),
                )
            } else {
                let mut local = env.clone();
                bind_params(&mut local, params, &call_args);
                run_body(rest, (**body).clone(), local, Ghost(s))
            }
        },
        Value::Function(Function::Macro { .. }) => rest.fail(
            ErrorKind::TypeError,
            owned("Cannot apply macro (use macroexpand instead)"),
            Ghost(s),
        ),
        _ => rest.fail(
            ErrorKind::TypeError,
            owned("First argument to apply must be a function"),
            Ghost(s),
        ),
    }
}

fn run_time(rest: Rest, args: Vec<Value>, Ghost(s): Ghost<State>) -> (m: Machine)
    requires
        rest.of(s),
    ensures
        m@ == time(s, forms(args@)),
{
    if args.len() != 1 {
        return rest.fail(
            ErrorKind::ArityError,
            owned("time requires exactly 1 argument"),
            Ghost(s),
        );
    }
    proof {
        lemma_views(args@[0]);
        if args@[0] is Function {
            crate::value::lemma_function(args@[0]->Function_0);
        }
    }
    match &args[0] {
        Value::Function(Function::Native(_)) => {
            let none: Vec<Value> = Vec::new();
            assert(forms(none@) =~= Seq::empty());
            rest.to(Control::Invoke { func: args[0].clone(), args: none, name: None }, Ghost(s))
        },
        Value::Function(Function::UserDefined { params, body, env }) => {
            if params.len() != 0 {
                rest.fail(
                    ErrorKind::TypeError,
                    owned("time requires a function with no parameters"),
                    Ghost(s),
                )
            } else {
                run_body(rest, (**body).clone(), env.clone(), Ghost(s))
            }
        },
        _ => rest.fail(ErrorKind::TypeError, owned("time requires a function"), Ghost(s)),
    }
}

/// The call of the native procedure `name`.
pub(crate) fn call_native(rest: Rest, name: &str, args: Vec<Value>, Ghost(s): Ghost<State>) -> (m:
    Machine)
    requires
        rest.of(s),
    ensures
        m@ == native(s, name@, forms(args@)),
{
    if name.eq("+") {
        run_sum_or_product(rest, name, ArithOp::Add, Number::zero(), args, Ghost(s))
    } else if name.eq("*") {
        run_sum_or_product(rest, name, ArithOp::Mul, Number::one(), args, Ghost(s))
    } else if name.eq("-") {
        run_difference(rest, args, Ghost(s))
    } else if name.eq("/") {
        run_quotient(rest, args, Ghost(s))
    } else if name.eq("%") {
        run_remainder(rest, args, Ghost(s))
    } else if name.eq("inc") || name.eq("dec") || name.eq("square") || name.eq("cube") {
        run_unary(rest, name, args, Ghost(s))
    } else if name.eq("str-length") {
        run_str_length(rest, args, Ghost(s))
    } else if name.eq("print") || name.eq("println") {
        run_emit(rest, name, args, Ghost(s))
    } else if name.eq("printf") {
        crate::format::run_printf(rest, args, Ghost(s))
    } else if name.eq("apply") {
        run_apply(rest, args, Ghost(s))
    } else if name.eq("time") {
        run_time(rest, args, Ghost(s))
    } else {
        match run_pure(name, &args) {
            Some(Ok(v)) => rest.give(v, Ghost(s)),
            Some(Err(e)) => rest.to(Control::Raise(e), Ghost(s)),
            None => rest.to(
                Control::Request(HostRequest::Native { name: owned(name), args }),
                Ghost(s),
            ),
        }
    }
}

} // verus!
