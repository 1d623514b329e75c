//! The tokens of the language.

use vstd::prelude::*;

verus! {

/// The smallest lexical units. A token lives for one parse step only.
#[derive(Debug, PartialEq, Eq)]
pub enum Token {
    Open,
    Close,
    Eq,
    Return,
    If,
    Then,
    Else,
    Fi,
    Lt,
    Le,
    Eqeq,
    Ge,
    Gt,
    Add,
    Sub,
    Mult,
    Div,
    Pow,
    Ide(String),
    Num(i32),
}

/// A token as a mathematical value: an identifier is its characters, a
/// numeral its value.
pub enum TokenSpec {
    Open,
    Close,
    Eq,
    Return,
    If,
    Then,
    Else,
    Fi,
    Lt,
    Le,
    Eqeq,
    Ge,
    Gt,
    Add,
    Sub,
    Mult,
    Div,
    Pow,
    Ide(Seq<char>),
    Num(int),
}

impl View for Token {
    type V = TokenSpec;

    open spec fn view(&self) -> TokenSpec {
        match self {
            Token::Open => TokenSpec::Open,
            Token::Close => TokenSpec::Close,
            Token::Eq => TokenSpec::Eq,
            Token::Return => TokenSpec::Return,
            Token::If => TokenSpec::If,
            Token::Then => TokenSpec::Then,
            Token::Else => TokenSpec::Else,
            Token::Fi => TokenSpec::Fi,
            Token::Lt => TokenSpec::Lt,
            Token::Le => TokenSpec::Le,
            Token::Eqeq => TokenSpec::Eqeq,
            Token::Ge => TokenSpec::Ge,
            Token::Gt => TokenSpec::Gt,
            Token::Add => TokenSpec::Add,
            Token::Sub => TokenSpec::Sub,
            Token::Mult => TokenSpec::Mult,
            Token::Div => TokenSpec::Div,
            Token::Pow => TokenSpec::Pow,
            Token::Ide(name) => TokenSpec::Ide(name@),
            Token::Num(value) => TokenSpec::Num(*value as int),
        }
    }
}

impl Token {
    /// Whether the two tokens are the same: the same kind, and for an
    /// identifier the same name, for a numeral the same value.
    pub fn same(&self, other: &Token) -> (b: bool)
        ensures
            b == (self@ == other@),
    {
        match (self, other) {
            (Token::Open, Token::Open) => true,
            (Token::Close, Token::Close) => true,
            (Token::Eq, Token::Eq) => true,
            (Token::Return, Token::Return) => true,
            (Token::If, Token::If) => true,
            (Token::Then, Token::Then) => true,
            (Token::Else, Token::Else) => true,
            (Token::Fi, Token::Fi) => true,
            (Token::Lt, Token::Lt) => true,
            (Token::Le, Token::Le) => true,
            (Token::Eqeq, Token::Eqeq) => true,
            (Token::Ge, Token::Ge) => true,
            (Token::Gt, Token::Gt) => true,
            (Token::Add, Token::Add) => true,
            (Token::Sub, Token::Sub) => true,
            (Token::Mult, Token::Mult) => true,
            (Token::Div, Token::Div) => true,
            (Token::Pow, Token::Pow) => true,
            (Token::Ide(a), Token::Ide(b)) => *a == *b,
            (Token::Num(a), Token::Num(b)) => *a == *b,
            _ => false,
        }
    }
}

impl Clone for Token {
    fn clone(&self) -> (r: Token)
        ensures
            r@ == self@,
    {
        match self {
            Token::Open => Token::Open,
            Token::Close => Token::Close,
            Token::Eq => Token::Eq,
            Token::Return => Token::Return,
            Token::If => Token::If,
            Token::Then => Token::Then,
            Token::Else => Token::Else,
            Token::Fi => Token::Fi,
            Token::Lt => Token::Lt,
            Token::Le => Token::Le,
            Token::Eqeq => Token::Eqeq,
            Token::Ge => Token::Ge,
            Token::Gt => Token::Gt,
            Token::Add => Token::Add,
            Token::Sub => Token::Sub,
            Token::Mult => Token::Mult,
            Token::Div => Token::Div,
            Token::Pow => Token::Pow,
            Token::Ide(name) => Token::Ide(name.clone()),
            Token::Num(value) => Token::Num(*value),
        }
    }
}

} // verus!
