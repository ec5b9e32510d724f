//! Token kinds and tokens.
//!
//! A token is a classified lexeme together with the row and column at which
//! its lexeme starts. The tokenizer never fails: malformed lexemes are carried
//! in-band as tokens of kind `Error`, and the parser decides whether such a
//! token is fatal to the production it is working on.

use vstd::prelude::*;

verus! {

/// The closed set of token kinds: punctuation, operators, literals,
/// keywords, identifiers, and the in-band `Error` kind.
#[derive(Clone, Copy, Debug, PartialEq, Eq, Structural)]
pub enum TokenName {
    Semi,
    Colon,
    Dot,
    Osq,
    Csq,
    Obr,
    Cbr,
    Opr,
    Cpr,
    Eq,
    Add,
    Sub,
    Mul,
    Div,
    Assign,
    AddAssign,
    SubAssign,
    MulAssign,
    DivAssign,
    Lt,
    Lte,
    Gt,
    Gte,
    Bang,
    And,
    Or,
    Ident,
    Let,
    Return,
    If,
    Else,
    For,
    Int,
    Float,
    Str,
    Error,
}

/// Mathematical image of a token: the kind, the lexeme as a sequence of
/// characters, and the 1-based row and column of the lexeme's start.
pub ghost struct SpecToken {
    pub kind: TokenName,
    pub text: Seq<char>,
    pub row: int,
    pub col: int,
}

/// A token as the tokenizer hands it out: the lexeme text is an owned copy
/// of the slice of source text it came from.
#[derive(Debug, PartialEq, Eq)]
pub struct Token {
    pub kind: TokenName,
    pub value: String,
    pub row: usize,
    pub col: usize,
}

impl View for Token {
    type V = SpecToken;

    open spec fn view(&self) -> SpecToken {
        SpecToken {
            kind: self.kind,
            text: self.value@,
            row: self.row as int,
            col: self.col as int,
        }
    }
}

/// The mathematical image of a sequence of tokens.
pub open spec fn tokens_view(ts: Seq<Token>) -> Seq<SpecToken> {
    ts.map_values(|t: Token| t@)
}

} // verus!
