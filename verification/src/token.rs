use vstd::prelude::*;

verus! {

/// The classification of one lexical token.
///
/// Exactly one variant applies per token. `Number` carries the decoded
/// base-10 value of an integer literal. `Float` is reserved for
/// floating-point literals, which this scanner never produces.
#[derive(Debug, Clone, Copy, PartialEq, Eq)]
pub enum TokenKind {
    Identifier,
    StringLiteral,
    Number(i64),
    Float,
    OpenParen,
    CloseParen,
    OpenBrack,
    CloseBrack,
    OpenCurly,
    CloseCurly,
    Colon,
    Semicolon,
    Pipe,
    Pound,
    Bang,
    Dot,
    Comma,
    Tilda,
    Question,
    LessThan,
    GreaterThan,
    Plus,
    Minus,
    Slash,
    Star,
    Equals,
    Let,
    Func,
    If,
    Else,
    Elif,
    While,
    Not,
    Public,
    Private,
    Static,
    EOF,
}

/// Why a tokenization call aborted without producing a token sequence.
#[derive(Debug, Clone, Copy, PartialEq, Eq)]
pub enum LexError {
    /// A character matched none of the classified categories.
    UnrecognizedChar(char),
    /// A digit run does not fit the signed 64-bit integer range.
    NumberOverflow,
}

/// One unit of lexical output: the exact source spelling paired with its
/// classified kind. Immutable after creation.
#[derive(Debug, Clone, PartialEq, Eq)]
pub struct Token {
    pub value: String,
    pub kind: TokenKind,
}

/// The mathematical model of a `Token`: its spelling as a character
/// sequence, and its kind.
pub ghost struct SpecToken {
    pub spelling: Seq<char>,
    pub kind: TokenKind,
}

impl View for Token {
    type V = SpecToken;

    open spec fn view(&self) -> SpecToken {
        SpecToken { spelling: self.value@, kind: self.kind }
    }
}

impl Token {
    /// Pairs a spelling with its kind; the spelling is copied out of `value`.
    pub fn new(value: &String, kind: TokenKind) -> (t: Token)
        ensures
            t@ == (SpecToken { spelling: value@, kind: kind }),
    {
        Token { value: value.clone(), kind }
    }
}

} // verus!
