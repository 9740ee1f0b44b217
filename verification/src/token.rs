//! Tokens, symbols and the error type the lexer produces.

use vstd::prelude::*;

use crate::classes::{ident_cont, ident_start, is_ident_cont, is_ident_start};
use crate::location::LocationArea;
use vstd::string::StrSliceExecFns;

verus! {

/// Identifier-shaped text: a letter or underscore followed by letters,
/// digits and underscores.
pub open spec fn is_symbol_text(t: Seq<char>) -> bool {
    t.len() > 0 && is_ident_start(t[0]) && forall|k: int|
        1 <= k < t.len() ==> is_ident_cont(#[trigger] t[k])
}

/// A validated identifier.  Construction is fallible: only
/// identifier-shaped text is accepted.
#[derive(Clone, Debug, PartialEq)]
pub struct Symbol {
    text: String,
}

impl View for Symbol {
    type V = Seq<char>;

    closed spec fn view(&self) -> Seq<char> {
        self.text@
    }
}

impl Symbol {
    /// Builds a symbol from `text`, accepting exactly the
    /// identifier-shaped strings.
    pub fn new(text: String) -> (r: Option<Symbol>)
        ensures
            r is Some <==> is_symbol_text(text@),
            r is Some ==> r->0@ == text@,
    {
        let st = text.as_str();
        let n = st.unicode_len();
        if n == 0 {
            return None;
        }
        if !ident_start(st.get_char(0)) {
            return None;
        }
        let mut i: usize = 1;
        while i < n
            invariant
                1 <= i <= n == st@.len(),
                st@ == text@,
                forall|k: int| 1 <= k < i ==> is_ident_cont(#[trigger] st@[k]),
            decreases n - i,
        {
            if !ident_cont(st.get_char(i)) {
                return None;
            }
            i = i + 1;
        }
        Some(Symbol { text })
    }

    /// The symbol's text.
    pub fn as_str(&self) -> (r: &str)
        ensures
            r@ == self@,
    {
        self.text.as_str()
    }
}

/// The classified content of a token.  A numeric literal carries its
/// source text, which always satisfies `is_float_literal`.
#[derive(Clone, Debug, PartialEq)]
pub enum TokenKind {
    LeftParen,
    RightParen,
    LeftBracket,
    RightBracket,
    LeftBrace,
    RightBrace,
    Dot,
    Symbol(Symbol),
    Number(String),
    String(String),
    Boolean(bool),
    Nil,
}

/// The mathematical content of a token kind: text becomes a character
/// sequence.
pub enum KindView {
    LeftParen,
    RightParen,
    LeftBracket,
    RightBracket,
    LeftBrace,
    RightBrace,
    Dot,
    Symbol(Seq<char>),
    Number(Seq<char>),
    String(Seq<char>),
    Boolean(bool),
    Nil,
}

impl View for TokenKind {
    type V = KindView;

    open spec fn view(&self) -> KindView {
        match self {
            TokenKind::LeftParen => KindView::LeftParen,
            TokenKind::RightParen => KindView::RightParen,
            TokenKind::LeftBracket => KindView::LeftBracket,
            TokenKind::RightBracket => KindView::RightBracket,
            TokenKind::LeftBrace => KindView::LeftBrace,
            TokenKind::RightBrace => KindView::RightBrace,
            TokenKind::Dot => KindView::Dot,
            TokenKind::Symbol(s) => KindView::Symbol(s@),
            TokenKind::Number(t) => KindView::Number(t@),
            TokenKind::String(t) => KindView::String(t@),
            TokenKind::Boolean(b) => KindView::Boolean(*b),
            TokenKind::Nil => KindView::Nil,
        }
    }
}

/// A classified, located unit of lexical input.
#[derive(Clone, Debug, PartialEq)]
pub struct Token {
    pub kind: TokenKind,
    pub location: LocationArea,
}

/// The one kind of error this lexer produces.
#[derive(Clone, Copy, Debug, PartialEq, Eq, Structural)]
pub enum ErrorKind {
    SyntaxError,
}

/// A lexing error: a syntax error with a message and the area of the
/// input it arose at.
#[derive(Clone, Debug, PartialEq)]
pub struct Error {
    pub kind: ErrorKind,
    pub location: Option<LocationArea>,
    pub message: String,
}

} // verus!
