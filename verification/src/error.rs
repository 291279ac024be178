//! The runtime error.

use vstd::prelude::*;
use vstd::slice::slice_to_vec;
use vstd::string::*;
use crate::token::{bytes_concat, LoxStr, Token, TokenView};

verus! {

/// What went wrong.
#[derive(Clone, Copy, Debug, PartialEq, Eq, Structural)]
pub enum ErrorKind {
    /// An operand had to be a number and was not.
    ExpectedNumber,
    /// A value had to be a string and was not.
    ExpectedString,
    /// The operands of `+` were neither two numbers nor two strings.
    ExpectedNumbersOrStrings,
    /// A property was read from or written to something that is no instance.
    ExpectedInstance,
    /// A variable was read or assigned that no scope in the chain defines.
    UndefinedVariable,
    /// A property was read that is neither a field nor a method.
    UndefinedProperty,
    /// Something was called that is not callable.
    NotCallable,
    /// A call gave a number of arguments other than the callee's arity.
    Arity { expected: usize, got: usize },
    /// An operator node carried a token that is no such operator.
    UnexpectedToken,
    /// The limit on nested calls and loop rounds was reached, or no fresh
    /// identity was left for a callable.
    Exhausted,
}

/// A runtime error: the token that triggered it and what went wrong.
#[derive(Clone, Debug, PartialEq, Eq)]
pub struct LoxError {
    pub token: Token,
    pub kind: ErrorKind,
}

/// A runtime error with its token's text as a sequence of bytes.
pub ghost struct ErrorView {
    pub token: TokenView,
    pub kind: ErrorKind,
}

impl View for LoxError {
    type V = ErrorView;

    open spec fn view(&self) -> ErrorView {
        ErrorView { token: self.token@, kind: self.kind }
    }
}

impl LoxError {
    /// The error of the given kind at the given token.
    pub fn runtime(token: &Token, kind: ErrorKind) -> (e: LoxError)
        ensures
            e@ == (ErrorView { token: token@, kind }),
    {
        LoxError { token: token.duplicate(), kind }
    }
}


/// The decimal digits of a number, as text.
pub open spec fn decimal(n: nat) -> Seq<u8>
    decreases n,
{
    if n < 10 {
        seq![(48 + n) as u8]
    } else {
        decimal(n / 10).push((48 + n % 10) as u8)
    }
}

/// Writes a number in decimal digits.
pub fn decimal_text(n: usize) -> (r: LoxStr)
    ensures
        r@ == decimal(n as nat),
    decreases n,
{
    if n < 10 {
        let r: LoxStr = vec![(48 + n) as u8];
        assert(r@ =~= decimal(n as nat));
        r
    } else {
        let mut r = decimal_text(n / 10);
        r.push((48 + n % 10) as u8);
        r
    }
}

/// The bytes of a piece of text.
pub fn text(s: &str) -> (r: LoxStr)
    ensures
        r@ == s.spec_bytes(),
{
    slice_to_vec(s.as_bytes())
}

/// The message of an error: what went wrong, in words, with the name at
/// fault or the numbers of arguments where there are any.
pub open spec fn message(e: ErrorView) -> Seq<u8> {
    match e.kind {
        ErrorKind::ExpectedNumber => "operand must be a number".spec_bytes(),
        ErrorKind::ExpectedString => "operand must be a string".spec_bytes(),
        ErrorKind::ExpectedNumbersOrStrings => "requires two numbers or two strings".spec_bytes(),
        ErrorKind::ExpectedInstance => "only instances have properties".spec_bytes(),
        ErrorKind::UndefinedVariable => "Undefined variable: ".spec_bytes() + e.token.lexeme,
        ErrorKind::UndefinedProperty => "Undefined property: ".spec_bytes() + e.token.lexeme,
        ErrorKind::NotCallable => "can only call functions and classes".spec_bytes(),
        ErrorKind::Arity { expected, got } => "expected ".spec_bytes() + decimal(expected as nat)
            + " arguments but got ".spec_bytes() + decimal(got as nat),
        ErrorKind::UnexpectedToken => "unexpected token: ".spec_bytes() + e.token.lexeme,
        ErrorKind::Exhausted => "limit reached".spec_bytes(),
    }
}

impl LoxError {
    /// The message of the error.
    pub fn message(&self) -> (r: LoxStr)
        ensures
            r@ == message(self@),
    {
        match self.kind {
            ErrorKind::ExpectedNumber => text("operand must be a number"),
            ErrorKind::ExpectedString => text("operand must be a string"),
            ErrorKind::ExpectedNumbersOrStrings => text("requires two numbers or two strings"),
            ErrorKind::ExpectedInstance => text("only instances have properties"),
            ErrorKind::UndefinedVariable => bytes_concat(
                &text("Undefined variable: "),
                &self.token.lexeme,
            ),
            ErrorKind::UndefinedProperty => bytes_concat(
                &text("Undefined property: "),
                &self.token.lexeme,
            ),
            ErrorKind::NotCallable => text("can only call functions and classes"),
            ErrorKind::Arity { expected, got } => {
                let head = bytes_concat(&text("expected "), &decimal_text(expected));
                let tail = bytes_concat(&text(" arguments but got "), &decimal_text(got));
                let r = bytes_concat(&head, &tail);
                assert(r@ =~= message(self@));
                r
            },
            ErrorKind::UnexpectedToken => bytes_concat(
                &text("unexpected token: "),
                &self.token.lexeme,
            ),
            ErrorKind::Exhausted => text("limit reached"),
        }
    }
}

} // verus!
