//! The universal datum, its mathematical model, and deep copies.
//!
//! Every executable type here has a model made of sequences: [`Value`] is
//! seen as a [`Form`], [`Function`] as a [`Closure`], [`Env`] as a
//! [`Scope`]. Contracts across the crate speak of the models only.
use vstd::prelude::*;
use crate::text::Text;

verus! {

/// The stable kinds of failure.
#[derive(Clone, Copy, Debug, PartialEq, Eq, Structural)]
pub enum ErrorKind {
    ParseError,
    UndefinedSymbol,
    ArityError,
    TypeError,
    DivideByZero,
    RecursionLimit,
    UninitializedAccess,
    IOFailure,
    NamespaceLoadFailure,
}

/// A failure of reading or evaluation: its kind and the visible message.
#[derive(Debug)]
pub struct EvalError {
    pub kind: ErrorKind,
    pub message: String,
}

/// The model of an [`EvalError`].
pub ghost struct Fault {
    pub kind: ErrorKind,
    pub message: Text,
}

impl View for EvalError {
    type V = Fault;

    open spec fn view(&self) -> Fault {
        Fault { kind: self.kind, message: self.message@ }
    }
}

impl Clone for EvalError {
    fn clone(&self) -> (r: Self)
        ensures
            r@ == self@,
    {
        EvalError { kind: self.kind, message: self.message.clone() }
    }
}

/// A number: the bit pattern of an IEEE-754 double together with its decimal
/// rendering. The library compares and orders numbers by `bits`. It prints
/// a whole number below `10^15` in magnitude from its bits, and any other
/// number as `text`; whoever computes a number supplies both.
#[derive(Debug)]
pub struct Number {
    pub bits: u64,
    pub text: String,
}

/// The model of a [`Number`].
pub ghost struct Numeral {
    pub bits: u64,
    pub text: Text,
}

impl View for Number {
    type V = Numeral;

    open spec fn view(&self) -> Numeral {
        Numeral { bits: self.bits, text: self.text@ }
    }
}

impl Clone for Number {
    fn clone(&self) -> (r: Self)
        ensures
            r@ == self@,
    {
        Number { bits: self.bits, text: self.text.clone() }
    }
}

/// A handle to a reader, writer or stream that the host keeps open. The
/// library only tells the four sorts apart and carries the handle around.
#[derive(Clone, Copy, Debug)]
pub enum IOResource {
    Reader(u64),
    Writer(u64),
    InputStream(u64),
    OutputStream(u64),
}

/// A callable value.
#[derive(Debug)]
pub enum Function {
    /// A native procedure, known by its name.
    Native(String),
    UserDefined { params: Vec<String>, body: Box<Value>, env: Env },
    Macro { params: Vec<String>, body: Box<Value>, env: Env },
}

/// Every runtime datum and every syntax node.
#[derive(Debug)]
pub enum Value {
    Symbol(String),
    Number(Number),
    Bool(bool),
    Nil,
    Str(String),
    List(Vec<Value>),
    Vector(Vec<Value>),
    /// A mapping from string keys to values, as entries in insertion order.
    Dict(Vec<(String, Value)>),
    Keyword(String),
    Function(Function),
    IOResource(IOResource),
    Uninitialized,
}

/// A frame of bindings over an optional parent frame.
#[derive(Debug)]
pub struct Env {
    pub parent: Option<Box<Env>>,
    pub data: Vec<(String, Value)>,
    pub current_namespace: String,
    pub loaded_namespaces: Vec<String>,
    pub namespace_aliases: Vec<(String, String)>,
}

/// The model of a [`Value`].
pub ghost enum Form {
    Symbol(Text),
    Number(Numeral),
    Bool(bool),
    Nil,
    Str(Text),
    List(Seq<Form>),
    Vector(Seq<Form>),
    Dict(Seq<(Text, Form)>),
    Keyword(Text),
    Function(Closure),
    IOResource(IOResource),
    Uninitialized,
}

/// The model of a [`Function`].
pub ghost enum Closure {
    Native(Text),
    UserDefined { params: Seq<Text>, body: Box<Form>, env: Scope },
    Macro { params: Seq<Text>, body: Box<Form>, env: Scope },
}

/// The model of an [`Env`].
pub ghost struct Scope {
    pub parent: Option<Box<Scope>>,
    pub data: Seq<(Text, Form)>,
    pub current_namespace: Text,
    pub loaded_namespaces: Seq<Text>,
    pub namespace_aliases: Seq<(Text, Text)>,
}

/// The model of a list of strings.
pub open spec fn texts(v: Seq<String>) -> Seq<Text> {
    Seq::new(v.len(), |i: int| v[i]@)
}

/// The model of a list of string pairs.
pub open spec fn text_pairs(v: Seq<(String, String)>) -> Seq<(Text, Text)> {
    Seq::new(v.len(), |i: int| (v[i].0@, v[i].1@))
}

/// The model of a value: strings as texts, lists as sequences, a function as
/// the model of its parts.
pub open spec fn form_of(v: Value) -> Form
    decreases v,
{
    match v {
        Value::Symbol(s) => Form::Symbol(s@),
        Value::Number(n) => Form::Number(n@),
        Value::Bool(b) => Form::Bool(b),
        Value::Nil => Form::Nil,
        Value::Str(s) => Form::Str(s@),
        Value::List(items) => Form::List(
            Seq::new(
                items@.len(),
                |i: int|
                    if 0 <= i < items@.len() {
                        form_of(items@[i])
                    } else {
                        Form::Nil
                    },
            ),
        ),
        Value::Vector(items) => Form::Vector(
            Seq::new(
                items@.len(),
                |i: int|
                    if 0 <= i < items@.len() {
                        form_of(items@[i])
                    } else {
                        Form::Nil
                    },
            ),
        ),
        Value::Dict(entries) => Form::Dict(
            Seq::new(
                entries@.len(),
                |i: int|
                    if 0 <= i < entries@.len() {
                        (entries@[i].0@, form_of(entries@[i].1))
                    } else {
                        (Seq::empty(), Form::Nil)
                    },
            ),
        ),
        Value::Keyword(s) => Form::Keyword(s@),
        Value::Function(f) => Form::Function(closure_of(f)),
        Value::IOResource(r) => Form::IOResource(r),
        Value::Uninitialized => Form::Uninitialized,
    }
}

/// The model of a function.
pub open spec fn closure_of(f: Function) -> Closure
    decreases f,
{
    match f {
        Function::Native(name) => Closure::Native(name@),
        Function::UserDefined { params, body, env } => Closure::UserDefined {
            params: texts(params@),
            body: Box::new(form_of(*body)),
            env: scope_of(env),
        },
        Function::Macro { params, body, env } => Closure::Macro {
            params: texts(params@),
            body: Box::new(form_of(*body)),
            env: scope_of(env),
        },
    }
}

/// The model of an environment, parents included.
pub open spec fn scope_of(e: Env) -> Scope
    decreases e,
{
    Scope {
        parent: match e.parent {
            Some(p) => Some(Box::new(scope_of(*p))),
            None => None,
        },
        data: Seq::new(
            e.data@.len(),
            |i: int|
                if 0 <= i < e.data@.len() {
                    (e.data@[i].0@, form_of(e.data@[i].1))
                } else {
                    (Seq::empty(), Form::Nil)
                },
        ),
        current_namespace: e.current_namespace@,
        loaded_namespaces: texts(e.loaded_namespaces@),
        namespace_aliases: text_pairs(e.namespace_aliases@),
    }
}

impl View for Value {
    type V = Form;

    open spec fn view(&self) -> Form {
        form_of(*self)
    }
}

impl View for Function {
    type V = Closure;

    open spec fn view(&self) -> Closure {
        closure_of(*self)
    }
}

impl View for Env {
    type V = Scope;

    open spec fn view(&self) -> Scope {
        scope_of(*self)
    }
}

/// The models of a list of values, item by item.
pub open spec fn forms(v: Seq<Value>) -> Seq<Form> {
    Seq::new(v.len(), |i: int| v[i]@)
}

/// The models of a list of entries, entry by entry.
pub open spec fn entries(v: Seq<(String, Value)>) -> Seq<(Text, Form)> {
    Seq::new(v.len(), |i: int| (v[i].0@, v[i].1@))
}

/// The model of an optional value.
pub open spec fn some_form(o: Option<Value>) -> Option<Form> {
    match o {
        Some(v) => Some(v@),
        None => None,
    }
}

/// The model of a result.
pub open spec fn result_form(r: Result<Value, EvalError>) -> Result<Form, Fault> {
    match r {
        Ok(v) => Ok(v@),
        Err(e) => Err(e@),
    }
}

/// What the model of each variant with items is, over [`forms`] and [`entries`].
pub proof fn lemma_views(v: Value)
    ensures
        v matches Value::List(items) ==> v@ == Form::List(forms(items@)),
        v matches Value::Vector(items) ==> v@ == Form::Vector(forms(items@)),
        v matches Value::Dict(pairs) ==> v@ == Form::Dict(entries(pairs@)),
        v matches Value::Function(f) ==> v@ == Form::Function(f@),
{
    match v {
        Value::Function(f) => {
            lemma_function(f);
        },
        Value::List(items) => {
            assert(v@->List_0 =~= forms(items@));
        },
        Value::Vector(items) => {
            assert(v@->Vector_0 =~= forms(items@));
        },
        Value::Dict(pairs) => {
            assert(v@->Dict_0 =~= entries(pairs@));
        },
        _ => {},
    }
}

/// What the model of a function is, over the models of its parts.
pub proof fn lemma_function(f: Function)
    ensures
        (Value::Function(f))@ == Form::Function(f@),
        match f {
            Function::Native(name) => f@ == Closure::Native(name@),
            Function::UserDefined { params, body, env } => f@ == (Closure::UserDefined {
                params: texts(params@),
                body: Box::new((*body)@),
                env: env@,
            }),
            Function::Macro { params, body, env } => f@ == (Closure::Macro {
                params: texts(params@),
                body: Box::new((*body)@),
                env: env@,
            }),
        },
{
}

/// The model of an environment's bindings is [`entries`] of its data.
pub proof fn lemma_scope_data(e: Env)
    ensures
        e@.data == entries(e.data@),
        e@.current_namespace == e.current_namespace@,
        e@.loaded_namespaces == texts(e.loaded_namespaces@),
        e@.namespace_aliases == text_pairs(e.namespace_aliases@),
        e.parent matches Some(p) ==> e@.parent == Some(Box::new(p@)),
        e.parent is None ==> e@.parent is None,
{
    assert(e@.data =~= entries(e.data@));
}

/// The models of a list of values with one more value.
pub proof fn lemma_forms_push(v: Seq<Value>, x: Value)
    ensures
        forms(v.push(x)) == forms(v).push(x@),
{
    assert(forms(v.push(x)) =~= forms(v).push(x@));
}

/// The models of a list of entries with one more entry.
pub proof fn lemma_entries_push(v: Seq<(String, Value)>, x: (String, Value))
    ensures
        entries(v.push(x)) == entries(v).push((x.0@, x.1@)),
{
    assert(entries(v.push(x)) =~= entries(v).push((x.0@, x.1@)));
}

/// The models of a list of strings with one more string.
pub proof fn lemma_texts_push(v: Seq<String>, x: String)
    ensures
        texts(v.push(x)) == texts(v).push(x@),
{
    assert(texts(v.push(x)) =~= texts(v).push(x@));
}

/// A copy of a list of strings.
pub fn copy_texts(v: &Vec<String>) -> (r: Vec<String>)
    ensures
        texts(r@) == texts(v@),
{
    let mut out: Vec<String> = Vec::new();
    let mut i: usize = 0;
    while i < v.len()
        invariant
            i <= v.len(),
            out@.len() == i,
            forall|j: int| 0 <= j < i ==> out@[j]@ == v@[j]@,
        decreases v.len() - i,
    {
        out.push(v[i].clone());
        i += 1;
    }
    assert(texts(out@) =~= texts(v@));
    out
}

/// A copy of a list of string pairs.
pub fn copy_text_pairs(v: &Vec<(String, String)>) -> (r: Vec<(String, String)>)
    ensures
        text_pairs(r@) == text_pairs(v@),
{
    let mut out: Vec<(String, String)> = Vec::new();
    let mut i: usize = 0;
    while i < v.len()
        invariant
            i <= v.len(),
            out@.len() == i,
            forall|j: int| 0 <= j < i ==> out@[j].0@ == v@[j].0@ && out@[j].1@ == v@[j].1@,
        decreases v.len() - i,
    {
        out.push((v[i].0.clone(), v[i].1.clone()));
        i += 1;
    }
    assert(text_pairs(out@) =~= text_pairs(v@));
    out
}

/// A copy of a list of values.
#[verifier::loop_isolation(false)]
pub fn copy_values(v: &Vec<Value>) -> (r: Vec<Value>)
    ensures
        forms(r@) == forms(v@),
    decreases v,
{
    let mut out: Vec<Value> = Vec::new();
    let mut i: usize = 0;
    while i < v.len()
        invariant
            i <= v.len(),
            out@.len() == i,
            forall|j: int| 0 <= j < i ==> out@[j]@ == v@[j]@,
        decreases v.len() - i,
    {
        out.push(copy_value(&v[i]));
        i += 1;
    }
    assert(forms(out@) =~= forms(v@));
    out
}

/// A copy of a list of entries.
#[verifier::loop_isolation(false)]
pub fn copy_entries(v: &Vec<(String, Value)>) -> (r: Vec<(String, Value)>)
    ensures
        entries(r@) == entries(v@),
    decreases v,
{
    let mut out: Vec<(String, Value)> = Vec::new();
    let mut i: usize = 0;
    while i < v.len()
        invariant
            i <= v.len(),
            out@.len() == i,
            forall|j: int| 0 <= j < i ==> out@[j].0@ == v@[j].0@ && out@[j].1@ == v@[j].1@,
        decreases v.len() - i,
    {
        out.push((v[i].0.clone(), copy_value(&v[i].1)));
        i += 1;
    }
    assert(entries(out@) =~= entries(v@));
    out
}

/// A deep copy of `v`.
pub fn copy_value(v: &Value) -> (r: Value)
    ensures
        r@ == v@,
    decreases v,
{
    proof {
        lemma_views(*v);
    }
    let r = match v {
        Value::Symbol(s) => Value::Symbol(s.clone()),
        Value::Number(n) => Value::Number(n.clone()),
        Value::Bool(b) => Value::Bool(*b),
        Value::Nil => Value::Nil,
        Value::Str(s) => Value::Str(s.clone()),
        Value::List(items) => Value::List(copy_values(items)),
        Value::Vector(items) => Value::Vector(copy_values(items)),
        Value::Dict(pairs) => Value::Dict(copy_entries(pairs)),
        Value::Keyword(s) => Value::Keyword(s.clone()),
        Value::Function(f) => Value::Function(copy_function(f)),
        Value::IOResource(h) => Value::IOResource(*h),
        Value::Uninitialized => Value::Uninitialized,
    };
    proof {
        lemma_views(r);
    }
    r
}

/// A deep copy of `f`.
pub fn copy_function(f: &Function) -> (r: Function)
    ensures
        r@ == f@,
    decreases f,
{
    match f {
        Function::Native(name) => Function::Native(name.clone()),
        Function::UserDefined { params, body, env } => Function::UserDefined {
            params: copy_texts(params),
            body: Box::new(copy_value(body)),
            env: copy_env(env),
        },
        Function::Macro { params, body, env } => Function::Macro {
            params: copy_texts(params),
            body: Box::new(copy_value(body)),
            env: copy_env(env),
        },
    }
}

/// A deep copy of `e`, parents included.
pub fn copy_env(e: &Env) -> (r: Env)
    ensures
        r@ == e@,
    decreases e,
{
    let parent = match &e.parent {
        Some(p) => Some(Box::new(copy_env(p))),
        None => None,
    };
    let r = Env {
        parent,
        data: copy_entries(&e.data),
        current_namespace: e.current_namespace.clone(),
        loaded_namespaces: copy_texts(&e.loaded_namespaces),
        namespace_aliases: copy_text_pairs(&e.namespace_aliases),
    };
    proof {
        lemma_scope_data(r);
        lemma_scope_data(*e);
    }
    r
}

impl Clone for Value {
    fn clone(&self) -> (r: Self)
        ensures
            r@ == self@,
    {
        copy_value(self)
    }
}

impl Clone for Function {
    fn clone(&self) -> (r: Self)
        ensures
            r@ == self@,
    {
        copy_function(self)
    }
}

impl Clone for Env {
    fn clone(&self) -> (r: Self)
        ensures
            r@ == self@,
    {
        copy_env(self)
    }
}

/// Falsy are `false` and `nil`; every other value is truthy.
pub open spec fn truthy(f: Form) -> bool {
    !(f == Form::Bool(false) || f == Form::Nil)
}

impl Value {
    /// Whether the value counts as true in a condition.
    pub fn is_truthy(&self) -> (b: bool)
        ensures
            b == truthy(self@),
    {
        match self {
            Value::Bool(false) => false,
            Value::Nil => false,
            _ => true,
        }
    }
}

} // verus!
