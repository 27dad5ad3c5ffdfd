//! The shared vocabulary of the lexer and the parser: source buffers, spans,
//! tokens and token kinds, together with their specification-level views.

use std::rc::Rc;
use vstd::prelude::*;
use vstd::slice::slice_subrange;

verus! {

/// An immutable, named sequence of characters; the substrate all token spans
/// index into.
#[derive(Debug)]
pub struct Source {
    pub name: String,
    pub chars: Vec<char>,
}

/// The mathematical value of a [`Source`]: its name and its characters.
#[verifier::ext_equal]
pub struct SourceView {
    pub name: Seq<char>,
    pub chars: Seq<char>,
}

impl View for Source {
    type V = SourceView;

    open spec fn view(&self) -> SourceView {
        SourceView { name: self.name@, chars: self.chars@ }
    }
}

impl Source {
    pub fn new(name: String, chars: Vec<char>) -> (s: Self)
        ensures
            s@ == (SourceView { name: name@, chars: chars@ }),
    {
        Self { name, chars }
    }

    /// The characters a span covers.
    pub fn range<'a>(&'a self, range: &Range) -> (r: &'a [char])
        requires
            range.0 <= range.1 <= self@.chars.len(),
        ensures
            r@ == self@.chars.subrange(range.0 as int, range.1 as int),
    {
        slice_subrange(self.chars.as_slice(), range.0, range.1)
    }

    pub fn get(&self, index: usize) -> (c: Option<&char>)
        ensures
            match c {
                Some(ch) => index < self@.chars.len() && *ch == self@.chars[index as int],
                None => index >= self@.chars.len(),
            },
    {
        self.chars.get(index)
    }

    pub fn len(&self) -> (n: usize)
        ensures
            n == self@.chars.len(),
    {
        self.chars.len()
    }
}

/// A half-open range of character indices into exactly one [`Source`].
#[derive(Clone, Copy, Debug, Hash, PartialEq, Eq)]
pub struct Range(pub usize, pub usize);

/// One lexed token. It owns no characters directly; its lexeme is recoverable
/// on demand by slicing its source with its span.
#[derive(Debug)]
pub struct Token {
    pub kind: TokenKind,
    pub span: Range,
    pub line: usize,
    pub source: Rc<Source>,
}

/// The closed set of token kinds. `Str` carries the literal's contents,
/// excluding the delimiting quote characters.
#[derive(Debug)]
pub enum TokenKind {
    // Single-character tokens
    LeftParen,
    RightParen,
    LeftBrace,
    RightBrace,
    Comma,
    Semicolon,
    Star,
    // Literals
    Identifier,
    Str(String),
    // Keywords
    Export,
    Import,
    Frm,
    As,
    Type,
    Eof,
}

/// The mathematical value of a [`TokenKind`]: the same tag, with a string
/// payload abstracted to its character sequence.
#[verifier::ext_equal]
pub enum KindView {
    LeftParen,
    RightParen,
    LeftBrace,
    RightBrace,
    Comma,
    Semicolon,
    Star,
    Identifier,
    Str(Seq<char>),
    Export,
    Import,
    Frm,
    As,
    Type,
    Eof,
}

impl View for TokenKind {
    type V = KindView;

    open spec fn view(&self) -> KindView {
        match self {
            TokenKind::LeftParen => KindView::LeftParen,
            TokenKind::RightParen => KindView::RightParen,
            TokenKind::LeftBrace => KindView::LeftBrace,
            TokenKind::RightBrace => KindView::RightBrace,
            TokenKind::Comma => KindView::Comma,
            TokenKind::Semicolon => KindView::Semicolon,
            TokenKind::Star => KindView::Star,
            TokenKind::Identifier => KindView::Identifier,
            TokenKind::Str(s) => KindView::Str(s@),
            TokenKind::Export => KindView::Export,
            TokenKind::Import => KindView::Import,
            TokenKind::Frm => KindView::Frm,
            TokenKind::As => KindView::As,
            TokenKind::Type => KindView::Type,
            TokenKind::Eof => KindView::Eof,
        }
    }
}

/// The mathematical value of a [`Token`]: kind, half-open span and line.
/// The identity of its source buffer is deliberately left out; token
/// equality brings the source name back in (see [`Token::eq`]).
#[verifier::ext_equal]
pub struct TokenView {
    pub kind: KindView,
    pub start: nat,
    pub end: nat,
    pub line: nat,
}

impl View for Token {
    type V = TokenView;

    open spec fn view(&self) -> TokenView {
        TokenView {
            kind: self.kind@,
            start: self.span.0 as nat,
            end: self.span.1 as nat,
            line: self.line as nat,
        }
    }
}

impl Clone for TokenKind {
    fn clone(&self) -> (r: Self)
        ensures
            r@ == self@,
    {
        match self {
            TokenKind::LeftParen => TokenKind::LeftParen,
            TokenKind::RightParen => TokenKind::RightParen,
            TokenKind::LeftBrace => TokenKind::LeftBrace,
            TokenKind::RightBrace => TokenKind::RightBrace,
            TokenKind::Comma => TokenKind::Comma,
            TokenKind::Semicolon => TokenKind::Semicolon,
            TokenKind::Star => TokenKind::Star,
            TokenKind::Identifier => TokenKind::Identifier,
            TokenKind::Str(s) => TokenKind::Str(s.clone()),
            TokenKind::Export => TokenKind::Export,
            TokenKind::Import => TokenKind::Import,
            TokenKind::Frm => TokenKind::Frm,
            TokenKind::As => TokenKind::As,
            TokenKind::Type => TokenKind::Type,
            TokenKind::Eof => TokenKind::Eof,
        }
    }
}

impl Clone for Token {
    fn clone(&self) -> (r: Self)
        ensures
            r@ == self@,
            r.source@ == self.source@,
    {
        Token {
            kind: self.kind.clone(),
            span: self.span,
            line: self.line,
            source: Rc::clone(&self.source),
        }
    }
}

impl PartialEq for TokenKind {
    /// Two kinds are equal when they carry the same tag, and — for string
    /// literals — the same contents.
    fn eq(&self, other: &Self) -> (r: bool)
    {
        match (self, other) {
            (TokenKind::LeftParen, TokenKind::LeftParen) => true,
            (TokenKind::RightParen, TokenKind::RightParen) => true,
            (TokenKind::LeftBrace, TokenKind::LeftBrace) => true,
            (TokenKind::RightBrace, TokenKind::RightBrace) => true,
            (TokenKind::Comma, TokenKind::Comma) => true,
            (TokenKind::Semicolon, TokenKind::Semicolon) => true,
            (TokenKind::Star, TokenKind::Star) => true,
            (TokenKind::Identifier, TokenKind::Identifier) => true,
            (TokenKind::Str(a), TokenKind::Str(b)) => *a == *b,
            (TokenKind::Export, TokenKind::Export) => true,
            (TokenKind::Import, TokenKind::Import) => true,
            (TokenKind::Frm, TokenKind::Frm) => true,
            (TokenKind::As, TokenKind::As) => true,
            (TokenKind::Type, TokenKind::Type) => true,
            (TokenKind::Eof, TokenKind::Eof) => true,
            _ => false,
        }
    }
}

impl vstd::std_specs::cmp::PartialEqSpecImpl for TokenKind {
    open spec fn obeys_eq_spec() -> bool {
        true
    }

    open spec fn eq_spec(&self, other: &Self) -> bool {
        self@ == other@
    }
}

impl PartialEq for Token {
    /// Two tokens are equal exactly when their kind, span, line and source
    /// name all match; the characters of the source buffer are deliberately
    /// left out of the comparison.
    fn eq(&self, other: &Token) -> (r: bool)
    {
        self.kind == other.kind && self.span.0 == other.span.0 && self.span.1 == other.span.1
            && self.line == other.line && self.source.name == other.source.name
    }
}

impl vstd::std_specs::cmp::PartialEqSpecImpl for Token {
    open spec fn obeys_eq_spec() -> bool {
        true
    }

    open spec fn eq_spec(&self, other: &Token) -> bool {
        self@ == other@ && self.source@.name == other.source@.name
    }
}

impl Token {
    /// The raw character slice this token was derived from, as a string.
    pub fn name(&self) -> (s: String)
        requires
            self.span.0 <= self.span.1 <= self.source@.chars.len(),
        ensures
            s@ == self.source@.chars.subrange(self.span.0 as int, self.span.1 as int),
    {
        chars_to_string(self.source.range(&self.span))
    }
}

/// Relies on `String: FromIterator<char>`: collecting an iterator of
/// characters yields the string of exactly those characters in order.
#[verifier::external_body]
pub(crate) fn chars_to_string(chars: &[char]) -> (s: String)
    ensures
        s@ == chars@,
{
    chars.iter().collect()
}

} // verus!
