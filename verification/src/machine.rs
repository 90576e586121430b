//! The state of an evaluation under way.
//!
//! Evaluation is a machine that moves in small steps. Its state holds what
//! is in focus, the current environment, the stack of continuations that
//! wait for a value, and the number of user functions entered and not yet
//! left. Work that the library cannot do itself (output, files, and the
//! floating-point arithmetic that is not arithmetic on whole numbers) is a
//! request that the machine stops on; the host answers it and evaluation
//! goes on from there.
use vstd::prelude::*;
use crate::text::Text;
use crate::value::{forms, texts, Env, EvalError, Fault, Form, Number, Numeral, Scope, Value};

verus! {

/// The arithmetic that the host performs on two numbers.
#[derive(Clone, Copy, Debug, PartialEq, Eq, Structural)]
pub enum ArithOp {
    Add,
    Sub,
    Mul,
    Div,
    Rem,
}

/// Work that the host does for the machine.
#[derive(Debug)]
pub enum HostRequest {
    /// `left op right` in IEEE-754 double arithmetic, where it is not
    /// arithmetic on whole numbers that the library does by itself.
    Arith { op: ArithOp, left: Number, right: Number },
    /// The number nearest to a count of `10^15` or more.
    Count { count: usize },
    /// Text for standard output.
    Emit { text: String },
    /// Every form of the source file at `path`, as one list.
    Source { path: String },
    /// A native procedure that the library does not implement.
    Native { name: String, args: Vec<Value> },
}

/// The model of a [`HostRequest`].
pub ghost enum Ask {
    Arith { op: ArithOp, left: Numeral, right: Numeral },
    Count { count: nat },
    Emit { text: Text },
    Source { path: Text },
    Native { name: Text, args: Seq<Form> },
}

impl View for HostRequest {
    type V = Ask;

    open spec fn view(&self) -> Ask {
        match self {
            HostRequest::Arith { op, left, right } => Ask::Arith {
                op: *op,
                left: left@,
                right: right@,
            },
            HostRequest::Count { count } => Ask::Count { count: *count as nat },
            HostRequest::Emit { text } => Ask::Emit { text: text@ },
            HostRequest::Source { path } => Ask::Source { path: path@ },
            HostRequest::Native { name, args } => Ask::Native { name: name@, args: forms(args@) },
        }
    }
}

/// What the machine has in focus.
#[derive(Debug)]
pub enum Control {
    /// A form to evaluate.
    Eval(Value),
    /// A form to build under `quasiquote`.
    Quasi(Value),
    /// A callee and its evaluated arguments; `name` is the short name under
    /// which the callee was called, where it was called by a symbol.
    Invoke { func: Value, args: Vec<Value>, name: Option<String> },
    /// A value on its way to the continuation on top of the stack.
    Return(Value),
    /// A failure on its way down the stack.
    Raise(EvalError),
    /// A request that waits for the host's answer.
    Request(HostRequest),
}

/// The model of a [`Control`].
pub ghost enum Focus {
    Eval(Form),
    Quasi(Form),
    Invoke { func: Form, args: Seq<Form>, name: Option<Text> },
    Return(Form),
    Raise(Fault),
    Request(Ask),
}

impl View for Control {
    type V = Focus;

    open spec fn view(&self) -> Focus {
        match self {
            Control::Eval(v) => Focus::Eval(v@),
            Control::Quasi(v) => Focus::Quasi(v@),
            Control::Invoke { func, args, name } => Focus::Invoke {
                func: func@,
                args: forms(args@),
                name: match name {
                    Some(n) => Some(n@),
                    None => None,
                },
            },
            Control::Return(v) => Focus::Return(v@),
            Control::Raise(e) => Focus::Raise(e@),
            Control::Request(r) => Focus::Request(r@),
        }
    }
}

/// What is made of the values of a run of forms once all are there.
#[derive(Debug)]
pub enum Gather {
    /// A vector of the values.
    Vector,
    /// A map from these keys to the values.
    Dict(Vec<String>),
    /// A call: the first value applied to the others.
    Call,
    /// A list built under `quasiquote`.
    QuasiList,
    /// A vector built under `quasiquote`.
    QuasiVector,
}

/// The model of a [`Gather`].
pub ghost enum Gathering {
    Vector,
    Dict(Seq<Text>),
    Call,
    QuasiList,
    QuasiVector,
}

impl View for Gather {
    type V = Gathering;

    open spec fn view(&self) -> Gathering {
        match self {
            Gather::Vector => Gathering::Vector,
            Gather::Dict(keys) => Gathering::Dict(texts(keys@)),
            Gather::Call => Gathering::Call,
            Gather::QuasiList => Gathering::QuasiList,
            Gather::QuasiVector => Gathering::QuasiVector,
        }
    }
}

/// The ways to go through forms one after the other.
#[derive(Debug)]
pub enum Each {
    /// `do`: the last value counts.
    Do,
    /// `and`: stops at the first falsy value.
    And,
    /// `or`: stops at the first truthy value.
    Or,
    /// The forms of the file at this path; a failure is reported with it.
    Load(String),
}

/// The model of an [`Each`].
pub ghost enum Walk {
    Do,
    And,
    Or,
    Load(Text),
}

impl View for Each {
    type V = Walk;

    open spec fn view(&self) -> Walk {
        match self {
            Each::Do => Walk::Do,
            Each::And => Walk::And,
            Each::Or => Walk::Or,
            Each::Load(path) => Walk::Load(path@),
        }
    }
}

/// Why the machine asked the host for the forms of a file.
#[derive(Debug)]
pub enum Purpose {
    /// `load`: the forms are evaluated one after the other.
    Load { path: String },
    /// `require`: the definitions among the forms are installed.
    Require { namespace: String, alias: Option<String>, path: String },
}

/// The model of a [`Purpose`].
pub ghost enum Intent {
    Load { path: Text },
    Require { namespace: Text, alias: Option<Text>, path: Text },
}

impl View for Purpose {
    type V = Intent;

    open spec fn view(&self) -> Intent {
        match self {
            Purpose::Load { path } => Intent::Load { path: path@ },
            Purpose::Require { namespace, alias, path } => Intent::Require {
                namespace: namespace@,
                alias: match alias {
                    Some(a) => Some(a@),
                    None => None,
                },
                path: path@,
            },
        }
    }
}

/// A continuation: what happens to the value that comes back.
#[derive(Debug)]
pub enum Frame {
    /// The values of `forms` are gathered in `done`, left to right.
    Collect { gather: Gather, forms: Vec<Value>, done: Vec<Value> },
    /// `forms[next]` comes after the value that is awaited.
    Each { each: Each, forms: Vec<Value>, next: usize },
    /// `def`: the value is bound to `name`.
    Define { name: String },
    /// `if`: the value picks one of the two.
    Branch { then_form: Value, else_form: Value },
    /// `let`: the value is bound to the symbol `bindings[next]`.
    Bind { bindings: Vec<Value>, next: usize, body: Value },
    /// `letrec`: the value replaces the placeholder of `names[next]`.
    Rebind { names: Vec<String>, bindings: Vec<Value>, next: usize, body: Value },
    /// The environment to go back to; `leave` where a user function ends.
    Restore { saved: Env, leave: bool },
    /// A macro's expansion comes back: it is evaluated in `saved`.
    Reeval { saved: Env },
    /// `load`: the value is the path.
    LoadPath,
    /// The host's answer to a request for the forms of a file.
    Source { purpose: Purpose },
    /// A running total comes back; `operands[next]` is applied to it next.
    Fold { op: ArithOp, operands: Vec<Value>, next: usize },
    /// The value is dropped for `nil`.
    Discard,
}

/// The model of a [`Frame`].
pub ghost enum Cont {
    Collect { gather: Gathering, forms: Seq<Form>, done: Seq<Form> },
    Each { each: Walk, forms: Seq<Form>, next: nat },
    Define { name: Text },
    Branch { then_form: Form, else_form: Form },
    Bind { bindings: Seq<Form>, next: nat, body: Form },
    Rebind { names: Seq<Text>, bindings: Seq<Form>, next: nat, body: Form },
    Restore { saved: Scope, leave: bool },
    Reeval { saved: Scope },
    LoadPath,
    Source { purpose: Intent },
    Fold { op: ArithOp, operands: Seq<Form>, next: nat },
    Discard,
}

impl View for Frame {
    type V = Cont;

    open spec fn view(&self) -> Cont {
        match self {
            Frame::Collect { gather, forms: items, done } => Cont::Collect {
                gather: gather@,
                forms: forms(items@),
                done: forms(done@),
            },
            Frame::Each { each, forms: items, next } => Cont::Each {
                each: each@,
                forms: forms(items@),
                next: *next as nat,
            },
            Frame::Define { name } => Cont::Define { name: name@ },
            Frame::Branch { then_form, else_form } => Cont::Branch {
                then_form: then_form@,
                else_form: else_form@,
            },
            Frame::Bind { bindings, next, body } => Cont::Bind {
                bindings: forms(bindings@),
                next: *next as nat,
                body: body@,
            },
            Frame::Rebind { names, bindings, next, body } => Cont::Rebind {
                names: texts(names@),
                bindings: forms(bindings@),
                next: *next as nat,
                body: body@,
            },
            Frame::Restore { saved, leave } => Cont::Restore { saved: saved@, leave: *leave },
            Frame::Reeval { saved } => Cont::Reeval { saved: saved@ },
            Frame::LoadPath => Cont::LoadPath,
            Frame::Source { purpose } => Cont::Source { purpose: purpose@ },
            Frame::Fold { op, operands, next } => Cont::Fold {
                op: *op,
                operands: forms(operands@),
                next: *next as nat,
            },
            Frame::Discard => Cont::Discard,
        }
    }
}

/// The models of a stack of frames, bottom first.
pub open spec fn conts(v: Seq<Frame>) -> Seq<Cont> {
    Seq::new(v.len(), |i: int| v[i]@)
}

/// The models of a stack with one more frame.
pub proof fn lemma_conts_push(v: Seq<Frame>, f: Frame)
    ensures
        conts(v.push(f)) == conts(v).push(f@),
{
    assert(conts(v.push(f)) =~= conts(v).push(f@));
}

/// The models of a stack without its top frame.
pub proof fn lemma_conts_pop(v: Seq<Frame>)
    requires
        v.len() > 0,
    ensures
        conts(v.drop_last()) == conts(v).drop_last(),
        conts(v).last() == v.last()@,
{
    assert(conts(v.drop_last()) =~= conts(v).drop_last());
}

/// The most user functions that may be entered and not yet left.
pub const MAX_RECURSION_DEPTH: usize = 1000;

/// An evaluation under way.
#[derive(Debug)]
pub struct Machine {
    pub control: Control,
    pub env: Env,
    pub stack: Vec<Frame>,
    pub depth: usize,
}

/// The model of a [`Machine`].
pub ghost struct State {
    pub focus: Focus,
    pub env: Scope,
    pub stack: Seq<Cont>,
    pub depth: nat,
}

impl View for Machine {
    type V = State;

    open spec fn view(&self) -> State {
        State {
            focus: self.control@,
            env: self.env@,
            stack: conts(self.stack@),
            depth: self.depth as nat,
        }
    }
}

impl State {
    /// The state with `focus` in focus.
    pub open spec fn to(self, focus: Focus) -> State {
        State { focus, ..self }
    }

    /// The state with `cont` on top of the stack.
    pub open spec fn push(self, cont: Cont) -> State {
        State { stack: self.stack.push(cont), ..self }
    }

    /// The state in `env`.
    pub open spec fn within(self, env: Scope) -> State {
        State { env, ..self }
    }

    /// The state that raises a failure.
    pub open spec fn fail(self, kind: crate::value::ErrorKind, message: Text) -> State {
        self.to(Focus::Raise(Fault { kind, message }))
    }

    /// Whether evaluation has come to its result.
    pub open spec fn finished(self) -> bool {
        self.stack.len() == 0 && (self.focus is Return || self.focus is Raise)
    }

    /// Whether evaluation waits for the host.
    pub open spec fn waiting(self) -> bool {
        self.focus is Request
    }

    /// The result that a finished evaluation has come to.
    pub open spec fn outcome(self) -> Result<Form, Fault>
        recommends
            self.finished(),
    {
        match self.focus {
            Focus::Return(v) => Ok(v),
            Focus::Raise(e) => Err(e),
            _ => Ok(Form::Nil),
        }
    }

    /// The state that starts the evaluation of `form` in `env`.
    pub open spec fn start(form: Form, env: Scope) -> State {
        State { focus: Focus::Eval(form), env, stack: Seq::empty(), depth: 0 }
    }
}

} // verus!
