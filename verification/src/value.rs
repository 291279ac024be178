//! Runtime values, and the functions, classes and syntax trees they are made
//! of.

use std::rc::Rc;
use vstd::prelude::*;
use crate::error::{ErrorKind, ErrorView, LoxError};
use crate::number;
use crate::semantics::values_equal;
use crate::token::{bytes_copy, bytes_eq, LoxStr, Token};

verus! {

/// A handle to an instance; two handles are the same instance exactly when
/// their identifiers are equal.
#[derive(Clone, Copy, Debug, PartialEq, Eq, Structural)]
pub struct LoxInstance {
    pub id: usize,
}

/// What a function is declared as: its name, parameters and body.
#[derive(Debug)]
pub struct FnDecl {
    pub name: LoxStr,
    pub params: Vec<Token>,
    pub body: Vec<Stmt>,
}

/// A function: a declaration, the scope it was defined in, and the instance
/// it is bound to where it is a method that was looked up.
#[derive(Debug)]
pub struct LoxFn {
    pub decl: Rc<FnDecl>,
    pub closure: usize,
    pub receiver: Option<LoxInstance>,
}

/// A class: its name, its superclass if it has one, and its own methods.
#[derive(Debug)]
pub struct LoxClass {
    pub name: LoxStr,
    pub superclass: Option<Rc<LoxClass>>,
    pub methods: Vec<(LoxStr, LoxFn)>,
}

/// What a call runs: a function, or a class as its own constructor.
#[derive(Debug)]
pub enum Target {
    Function(LoxFn),
    Class(Rc<LoxClass>),
}

/// A callable value. Its identifier is its identity: two callables are equal
/// exactly when their identifiers are.
#[derive(Debug)]
pub struct Callable {
    pub id: u64,
    pub target: Target,
}

/// A runtime value. A number is the bit pattern of a double.
#[derive(Debug)]
pub enum Value {
    Nil,
    Bool(bool),
    Number(u64),
    String(LoxStr),
    Callable(Callable),
    Instance(LoxInstance),
}

/// A value with its text as a sequence of bytes.
pub ghost enum ValueView {
    Nil,
    Bool(bool),
    Number(u64),
    String(Seq<u8>),
    Callable(Callable),
    Instance(LoxInstance),
}

impl View for Value {
    type V = ValueView;

    open spec fn view(&self) -> ValueView {
        match self {
            Value::Nil => ValueView::Nil,
            Value::Bool(b) => ValueView::Bool(*b),
            Value::Number(n) => ValueView::Number(*n),
            Value::String(s) => ValueView::String(s@),
            Value::Callable(c) => ValueView::Callable(*c),
            Value::Instance(i) => ValueView::Instance(*i),
        }
    }
}

/// An expression.
#[derive(Debug)]
pub enum Expr {
    Assign(Token, Box<Expr>),
    Binary(Box<Expr>, Token, Box<Expr>),
    Call(Box<Expr>, Token, Vec<Expr>),
    GetField(Box<Expr>, Token),
    Grouping(Box<Expr>),
    Literal(Value),
    Logical(Box<Expr>, Token, Box<Expr>),
    SetField(Box<Expr>, Token, Box<Expr>),
    Unary(Token, Box<Expr>),
    Variable(Token),
}

/// A statement.
#[derive(Debug)]
pub enum Stmt {
    Block(Vec<Stmt>),
    Expr(Expr),
    If(Expr, Box<Stmt>, Option<Box<Stmt>>),
    Print(Expr),
    Var(Token, Expr),
    While(Expr, Box<Stmt>),
}

/// Another handle to the same shared value.
///
/// Wraps `Rc::clone`, which makes a second pointer to the allocation that the
/// first points to and copies nothing: the value behind both is the same.
#[verifier::external_body]
pub(crate) fn share<T>(rc: &Rc<T>) -> (r: Rc<T>)
    ensures
        r == *rc,
{
    Rc::clone(rc)
}

impl Value {
    /// A copy of the value. Text is copied; a function or a class is shared.
    pub fn duplicate(&self) -> (r: Value)
        ensures
            r@ == self@,
    {
        match self {
            Value::Nil => Value::Nil,
            Value::Bool(b) => Value::Bool(*b),
            Value::Number(n) => Value::Number(*n),
            Value::String(s) => Value::String(bytes_copy(s)),
            Value::Callable(c) => Value::Callable(c.duplicate()),
            Value::Instance(i) => Value::Instance(*i),
        }
    }
}

impl Value {
    /// The value as a number, or the type error at `op`, the operator that
    /// asked for one.
    pub fn number(&self, op: &Token) -> (r: Result<u64, LoxError>)
        ensures
            match r {
                Ok(n) => self@ == ValueView::Number(n),
                Err(e) => !(self@ is Number) && e@ == (ErrorView {
                    token: op@,
                    kind: ErrorKind::ExpectedNumber,
                }),
            },
    {
        match self {
            Value::Number(n) => Ok(*n),
            _ => Err(LoxError::runtime(op, ErrorKind::ExpectedNumber)),
        }
    }

    /// The value as a string, or the type error at `op`.
    pub fn string(&self, op: &Token) -> (r: Result<LoxStr, LoxError>)
        ensures
            match r {
                Ok(t) => self@ == ValueView::String(t@),
                Err(e) => !(self@ is String) && e@ == (ErrorView {
                    token: op@,
                    kind: ErrorKind::ExpectedString,
                }),
            },
    {
        match self {
            Value::String(t) => Ok(bytes_copy(t)),
            _ => Err(LoxError::runtime(op, ErrorKind::ExpectedString)),
        }
    }

    /// The value as a callable, or the type error at `op`.
    pub fn callable(&self, op: &Token) -> (r: Result<Callable, LoxError>)
        ensures
            match r {
                Ok(c) => self@ == ValueView::Callable(c),
                Err(e) => !(self@ is Callable) && e@ == (ErrorView {
                    token: op@,
                    kind: ErrorKind::NotCallable,
                }),
            },
    {
        match self {
            Value::Callable(c) => Ok(c.duplicate()),
            _ => Err(LoxError::runtime(op, ErrorKind::NotCallable)),
        }
    }
}

impl PartialEq for Value {
    /// Equality as the language has it: by value for nil, booleans, numbers
    /// and strings, by identity for callables and instances.
    fn eq(&self, other: &Value) -> (r: bool) {
        match (self, other) {
            (Value::Nil, Value::Nil) => true,
            (Value::Bool(x), Value::Bool(y)) => *x == *y,
            (Value::Number(x), Value::Number(y)) => number::eq(*x, *y),
            (Value::String(x), Value::String(y)) => bytes_eq(x, y),
            (Value::Callable(x), Value::Callable(y)) => x.id == y.id,
            (Value::Instance(x), Value::Instance(y)) => x.id == y.id,
            _ => false,
        }
    }
}

impl vstd::std_specs::cmp::PartialEqSpecImpl for Value {
    open spec fn obeys_eq_spec() -> bool {
        true
    }

    open spec fn eq_spec(&self, other: &Value) -> bool {
        values_equal(self@, other@)
    }
}

impl LoxFn {
    /// The same function once more; the declaration is shared.
    pub fn duplicate(&self) -> (r: LoxFn)
        ensures
            r == *self,
    {
        LoxFn { decl: share(&self.decl), closure: self.closure, receiver: self.receiver }
    }
}

impl Callable {
    /// The same callable once more.
    pub fn duplicate(&self) -> (r: Callable)
        ensures
            r == *self,
    {
        let target = match &self.target {
            Target::Function(f) => Target::Function(f.duplicate()),
            Target::Class(c) => Target::Class(share(c)),
        };
        Callable { id: self.id, target }
    }
}

} // verus!
