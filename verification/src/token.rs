//! The token model: the closed set of token categories and the immutable
//! record the lexer produces for each lexical unit.

use vstd::prelude::*;

verus! {

/// The closed set of token categories.
///
/// Only `EOF`, `Identifier`, `Integer`, `Semi`, `Equal`, `Whitespace` and
/// `KVar` are reachable from the current transition table; the bracket,
/// punctuation, comment and ellipsis categories are reserved for a later
/// extension of the table and are never produced.
#[derive(Debug, PartialEq, Eq, Structural, Clone, Copy)]
pub enum TokenKind {
    EOF,
    Identifier,
    Integer,
    LBrace,
    RBrace,
    LSquare,
    RSquare,
    LParen,
    RParen,
    Comma,
    Semi,
    Colon,
    Ellipsis,
    Whitespace,
    Comment,
    Equal,
    KVar,
}

/// The mathematical value of a [`Token`]: the same record over `Seq<char>`
/// and `int`.
#[verifier::ext_equal]
pub ghost struct TokenView {
    pub kind: TokenKind,
    pub text: Seq<char>,
    pub offset: int,
    pub length: int,
    pub line: int,
    pub line_start: int,
}

/// The value of the end-of-input sentinel token: empty text, zero offset,
/// length and line fields.
pub open spec fn eof_token() -> TokenView {
    TokenView {
        kind: TokenKind::EOF,
        text: Seq::<char>::empty(),
        offset: 0,
        length: 0,
        line: 0,
        line_start: 0,
    }
}

/// One lexical unit: its category, the exact substring matched (an owned
/// copy), the zero-based position of its first character in the source, the
/// number of characters matched, the 1-based line its first character stands
/// on, and the position at which that line starts.
///
/// A token is constructed once, when the state machine decides that the
/// current run is complete, and is immutable afterwards.
#[derive(Debug)]
pub struct Token {
    pub kind: TokenKind,
    pub text: String,
    pub offset: usize,
    pub length: usize,
    pub line: usize,
    pub line_start: usize,
}

impl View for Token {
    type V = TokenView;

    open spec fn view(&self) -> TokenView {
        TokenView {
            kind: self.kind,
            text: self.text@,
            offset: self.offset as int,
            length: self.length as int,
            line: self.line as int,
            line_start: self.line_start as int,
        }
    }
}

impl Token {
    /// Whether this token's category equals the given one: an equality
    /// probe, no fuzzy matching.
    pub fn is(&self, kind: TokenKind) -> (r: bool)
        ensures
            r == (self@.kind == kind),
    {
        self.kind == kind
    }

    /// The end-of-input sentinel token, the canonical terminal value.
    pub fn eof() -> (r: Token)
        ensures
            r@ == eof_token(),
    {
        Token {
            kind: TokenKind::EOF,
            text: String::new(),
            offset: 0,
            length: 0,
            line: 0,
            line_start: 0,
        }
    }
}

} // verus!
