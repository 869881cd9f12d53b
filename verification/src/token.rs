//! Tokens and their kinds.
use vstd::prelude::*;

verus! {

/// The closed set of token categories.
#[derive(Debug, PartialEq, Eq, Structural, Clone, Copy)]
pub enum Kind {
    Identifier,
    Integer,
    String,
    Assign,
    Semicolon,
    Colon,
    LeftParen,
    RightParen,
    LeftCurlyBracket,
    RightCurlyBracket,
    Comma,
    Plus,
    Minus,
    Multiply,
    Divide,
    Equal,
    NotEqual,
    GreaterThanOrEqual,
    LessThanOrEqual,
    GreaterThan,
    LessThan,
    Newline,
    EOF,
}

/// One classified, positioned unit of source text.
#[derive(Debug)]
pub struct Token {
    pub kind: Kind,
    /// The matched text, or a fixed placeholder for a token that matches none.
    pub text: String,
    /// The value of an integer literal.
    pub value: Option<isize>,
    /// Line and column, both counted from 1.
    pub position: (usize, usize),
}

/// A token as plain mathematical values.
pub struct TokenView {
    pub kind: Kind,
    pub text: Seq<char>,
    pub value: Option<int>,
    pub position: (nat, nat),
}

impl TokenView {
    /// A token carries a value exactly when it is an integer literal.
    pub open spec fn wf(self) -> bool {
        self.value is Some <==> self.kind == Kind::Integer
    }
}

impl View for Token {
    type V = TokenView;

    open spec fn view(&self) -> TokenView {
        TokenView {
            kind: self.kind,
            text: self.text@,
            value: match self.value {
                Some(v) => Some(v as int),
                None => None,
            },
            position: (self.position.0 as nat, self.position.1 as nat),
        }
    }
}

impl Token {
    /// The token with the given parts.
    pub fn new(kind: Kind, text: String, value: Option<isize>, position: (usize, usize)) -> (token: Token)
        ensures
            token.kind == kind,
            token.text == text,
            token.value == value,
            token.position == position,
    {
        Token { kind, text, value, position }
    }
}

} // verus!
