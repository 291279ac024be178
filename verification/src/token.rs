//! Tokens, which tie a node of the tree to its place in the source, and the
//! byte strings that names and string values are made of.

use vstd::prelude::*;

verus! {

/// Text of the language: the bytes of a name or of a string value.
pub type LoxStr = Vec<u8>;

/// The kinds of token.
#[derive(Clone, Copy, Debug, PartialEq, Eq, Structural)]
pub enum TokenType {
    LeftParen,
    RightParen,
    LeftBrace,
    RightBrace,
    Comma,
    Dot,
    Minus,
    Plus,
    Semicolon,
    Slash,
    Star,
    Bang,
    BangEqual,
    Equal,
    EqualEqual,
    Greater,
    GreaterEqual,
    Less,
    LessEqual,
    Identifier,
    String,
    Number,
    And,
    Class,
    Else,
    False,
    Fun,
    For,
    If,
    Nil,
    Or,
    Print,
    Return,
    Super,
    This,
    True,
    Var,
    While,
    Eof,
}

/// A token: its kind, its text and the line it stood on.
#[derive(Clone, Debug, PartialEq, Eq)]
pub struct Token {
    pub ty: TokenType,
    pub lexeme: LoxStr,
    pub line: usize,
}

/// What a token is, with its text as a sequence of bytes.
pub ghost struct TokenView {
    pub ty: TokenType,
    pub lexeme: Seq<u8>,
    pub line: usize,
}

impl View for Token {
    type V = TokenView;

    open spec fn view(&self) -> TokenView {
        TokenView { ty: self.ty, lexeme: self.lexeme@, line: self.line }
    }
}

impl Token {
    /// Makes a token.
    pub fn new(ty: TokenType, lexeme: LoxStr, line: usize) -> (t: Token)
        ensures
            t@ == (TokenView { ty, lexeme: lexeme@, line }),
    {
        Token { ty, lexeme, line }
    }

    /// A copy of the token.
    pub fn duplicate(&self) -> (t: Token)
        ensures
            t@ == self@,
    {
        Token { ty: self.ty, lexeme: bytes_copy(&self.lexeme), line: self.line }
    }
}

/// Tells whether two texts hold the same bytes.
pub fn bytes_eq(a: &LoxStr, b: &LoxStr) -> (r: bool)
    ensures
        r == (a@ == b@),
{
    if a.len() != b.len() {
        return false;
    }
    let mut i: usize = 0;
    while i < a.len()
        invariant
            i <= a.len(),
            a.len() == b.len(),
            forall|j: int| 0 <= j < i ==> a@[j] == b@[j],
        decreases a.len() - i,
    {
        if a[i] != b[i] {
            return false;
        }
        i = i + 1;
    }
    assert(a@ =~= b@);
    true
}

/// A copy of a text.
pub fn bytes_copy(a: &LoxStr) -> (r: LoxStr)
    ensures
        r@ == a@,
{
    let mut r: LoxStr = Vec::new();
    let mut i: usize = 0;
    while i < a.len()
        invariant
            i <= a.len(),
            r@ == a@.subrange(0, i as int),
        decreases a.len() - i,
    {
        r.push(a[i]);
        assert(r@ =~= a@.subrange(0, i + 1));
        i = i + 1;
    }
    assert(r@ =~= a@);
    r
}

/// The first text followed by the second.
pub fn bytes_concat(a: &LoxStr, b: &LoxStr) -> (r: LoxStr)
    ensures
        r@ == a@ + b@,
{
    let mut r: LoxStr = bytes_copy(a);
    let mut i: usize = 0;
    while i < b.len()
        invariant
            i <= b.len(),
            r@ == a@ + b@.subrange(0, i as int),
        decreases b.len() - i,
    {
        r.push(b[i]);
        assert(r@ =~= a@ + b@.subrange(0, i + 1));
        i = i + 1;
    }
    assert(r@ =~= a@ + b@);
    r
}

} // verus!
