//! The character-level lexer: a single left-to-right pass over a source
//! buffer, producing a flat token sequence terminated by exactly one `Eof`
//! token.
//!
//! The meaning of the pass is pinned down by [`lex_spec`], a recursive
//! specification-level scanner; [`lex`] is proved to return exactly the token
//! sequence that [`lex_spec`] describes.

use std::rc::Rc;
use vstd::prelude::*;
use vstd::string::StrSliceExecFns;

use crate::token::{KindView, Range, Source, Token, TokenKind, TokenView};

verus! {

/// Whether a character is alphabetic, in the sense of `char::is_alphabetic`.
pub uninterp spec fn alphabetic(c: char) -> bool;

/// Whether a character is alphanumeric, in the sense of `char::is_alphanumeric`.
pub uninterp spec fn alphanumeric(c: char) -> bool;

/// Relies on `char::is_alphabetic`: the result depends on the character alone.
#[verifier::external_body]
fn char_is_alphabetic(c: char) -> (r: bool)
    ensures
        r == alphabetic(c),
{
    c.is_alphabetic()
}

/// Relies on `char::is_alphanumeric`: the result depends on the character alone.
#[verifier::external_body]
fn char_is_alphanumeric(c: char) -> (r: bool)
    ensures
        r == alphanumeric(c),
{
    c.is_alphanumeric()
}

/// The seven single-character punctuation tokens.
pub open spec fn is_punct(c: char) -> bool {
    c == '(' || c == ')' || c == '{' || c == '}' || c == ',' || c == ';' || c == '*'
}

/// The token kind a punctuation character lexes to.
pub open spec fn punct_kind(c: char) -> KindView {
    if c == '(' {
        KindView::LeftParen
    } else if c == ')' {
        KindView::RightParen
    } else if c == '{' {
        KindView::LeftBrace
    } else if c == '}' {
        KindView::RightBrace
    } else if c == ',' {
        KindView::Comma
    } else if c == ';' {
        KindView::Semicolon
    } else {
        KindView::Star
    }
}

/// Whitespace that is consumed without effect (newline is handled apart,
/// since it advances the line counter).
pub open spec fn is_blank(c: char) -> bool {
    c == ' ' || c == '\t' || c == '\r'
}

/// The three characters that open (and close) a string literal.
pub open spec fn is_quote(c: char) -> bool {
    c == '"' || c == '\'' || c == '`'
}

/// The first position at or after `i` holding `q`, or `s.len()` if there is
/// none.
pub open spec fn close_quote(s: Seq<char>, i: nat, q: char) -> nat
    decreases s.len() - i,
{
    if i >= s.len() {
        s.len()
    } else if s[i as int] == q {
        i
    } else {
        close_quote(s, i + 1, q)
    }
}

proof fn lemma_close_quote(s: Seq<char>, i: nat, q: char)
    requires
        i <= s.len(),
    ensures
        i <= close_quote(s, i, q) <= s.len(),
        close_quote(s, i, q) < s.len() ==> s[close_quote(s, i, q) as int] == q,
        forall|k: int| i <= k < close_quote(s, i, q) ==> s[k] != q,
    decreases s.len() - i,
{
    if i < s.len() && s[i as int] != q {
        lemma_close_quote(s, i + 1, q);
    }
}

/// The first position at or after `i` holding a non-alphanumeric character,
/// or `s.len()` if there is none: the end of an identifier begun before `i`.
pub open spec fn ident_end(s: Seq<char>, i: nat) -> nat
    decreases s.len() - i,
{
    if i >= s.len() {
        s.len()
    } else if alphanumeric(s[i as int]) {
        ident_end(s, i + 1)
    } else {
        i
    }
}

proof fn lemma_ident_end(s: Seq<char>, i: nat)
    requires
        i <= s.len(),
    ensures
        i <= ident_end(s, i) <= s.len(),
        forall|k: int| i <= k < ident_end(s, i) ==> alphanumeric(s[k]),
        ident_end(s, i) < s.len() ==> !alphanumeric(s[ident_end(s, i) as int]),
    decreases s.len() - i,
{
    if i < s.len() && alphanumeric(s[i as int]) {
        lemma_ident_end(s, i + 1);
    }
}

/// The kind an identifier-shaped lexeme is classified to: one of the five
/// keywords when it matches exactly, a plain identifier otherwise.
pub open spec fn keyword_kind(lexeme: Seq<char>) -> KindView {
    if lexeme == seq!['i', 'm', 'p', 'o', 'r', 't'] {
        KindView::Import
    } else if lexeme == seq!['e', 'x', 'p', 'o', 'r', 't'] {
        KindView::Export
    } else if lexeme == seq!['a', 's'] {
        KindView::As
    } else if lexeme == seq!['f', 'r', 'o', 'm'] {
        KindView::Frm
    } else if lexeme == seq!['t', 'y', 'p', 'e'] {
        KindView::Type
    } else {
        KindView::Identifier
    }
}

/// The token sequence lexed from position `i` of `s` on, with the line
/// counter standing at `line`; always ends in exactly one `Eof` token.
///
/// Mirrors one scanning step per recursive call: punctuation emits one token;
/// blanks and newlines are consumed silently; a quote scans ahead to its
/// closing twin (an unterminated literal is dropped and ends the scan); an
/// alphabetic character opens an identifier, classified against the keyword
/// table; every other character is consumed silently.
pub open spec fn scan_from(s: Seq<char>, i: nat, line: nat) -> Seq<TokenView>
    decreases s.len() - i,
    via scan_from_decreases
{
    if i >= s.len() {
        seq![TokenView { kind: KindView::Eof, start: s.len(), end: s.len(), line }]
    } else {
        let c = s[i as int];
        if is_punct(c) {
            seq![TokenView { kind: punct_kind(c), start: i, end: i + 1, line }] + scan_from(
                s,
                i + 1,
                line,
            )
        } else if is_blank(c) {
            scan_from(s, i + 1, line)
        } else if c == '\n' {
            scan_from(s, i + 1, line + 1)
        } else if is_quote(c) {
            let j = close_quote(s, i + 1, c);
            if j >= s.len() {
                seq![TokenView { kind: KindView::Eof, start: s.len(), end: s.len(), line }]
            } else {
                seq![
                    TokenView {
                        kind: KindView::Str(s.subrange(i as int + 1, j as int)),
                        start: i,
                        end: j + 1,
                        line,
                    },
                ] + scan_from(s, j + 1, line)
            }
        } else if alphabetic(c) {
            let j = ident_end(s, i + 1);
            seq![
                TokenView { kind: keyword_kind(s.subrange(i as int, j as int)), start: i, end: j, line },
            ] + scan_from(s, j, line)
        } else {
            scan_from(s, i + 1, line)
        }
    }
}

#[via_fn]
proof fn scan_from_decreases(s: Seq<char>, i: nat, line: nat) {
    if i < s.len() {
        let c = s[i as int];
        if is_quote(c) {
            lemma_close_quote(s, i + 1, c);
        } else if alphabetic(c) {
            lemma_ident_end(s, i + 1);
        }
    }
}

/// The full token sequence of a source text: scanning from the start, on
/// line one.
pub open spec fn lex_spec(s: Seq<char>) -> Seq<TokenView> {
    scan_from(s, 0, 1)
}

struct Lexer {
    tokens: Vec<Token>,
    start: usize,
    current: usize,
    line: usize,
    source: Rc<Source>,
}

impl Lexer {
    /// The characters being lexed.
    spec fn src(self) -> Seq<char> {
        self.source@.chars
    }

    /// The views of the tokens emitted so far.
    spec fn views(self) -> Seq<TokenView> {
        self.tokens@.map_values(|t: Token| t@)
    }

    /// Every emitted token shares the lexer's source buffer.
    spec fn toks_src_ok(self) -> bool {
        forall|k: int|
            0 <= k < self.tokens@.len() ==> (#[trigger] self.tokens@[k]).source@ == self.source@
    }

    spec fn wf(self) -> bool {
        &&& self.start <= self.current <= self.src().len()
        &&& 1 <= self.line <= self.current + 1
        &&& self.src().len() < usize::MAX
    }

    fn new(name: String, chars: Vec<char>) -> (lx: Self)
        requires
            chars@.len() < usize::MAX,
        ensures
            lx.wf(),
            lx.toks_src_ok(),
            lx.src() == chars@,
            lx.source@.name == name@,
            lx.current == 0,
            lx.line == 1,
            lx.views() == Seq::<TokenView>::empty(),
    {
        let source = Source::new(name, chars);
        let lx = Lexer {
            source: Rc::new(source),
            tokens: Vec::new(),
            start: 0,
            current: 0,
            line: 1,
        };
        proof {
            assert(lx.views() =~= Seq::<TokenView>::empty());
        }
        lx
    }

    /// Lexes the whole buffer, then appends the `Eof` token covering the
    /// empty span at end of input.
    fn lex(self) -> (tokens: Vec<Token>)
        requires
            self.wf(),
            self.toks_src_ok(),
            self.current == 0,
            self.line == 1,
            self.views() == Seq::<TokenView>::empty(),
        ensures
            tokens@.map_values(|t: Token| t@) == lex_spec(self.src()),
            forall|k: int|
                0 <= k < tokens@.len() ==> (#[trigger] tokens@[k]).source@ == self.source@,
    {
        let ghost s = self.src();
        let ghost src_view = self.source@;
        let mut lx = self;
        let n = lx.source.len();
        while lx.current < n
            invariant
                lx.wf(),
                lx.toks_src_ok(),
                lx.src() == s,
                lx.source@ == src_view,
                n == s.len(),
                lx.views() + scan_from(s, lx.current as nat, lx.line as nat) =~= lex_spec(s),
            decreases n - lx.current,
        {
            lx.start = lx.current;
            let ghost pre = lx;
            lx.scan_token();
            proof {
                let emitted = lx.views().skip(pre.views().len() as int);
                assert(lx.views() =~= pre.views() + emitted);
                assert(lx.views() + scan_from(s, lx.current as nat, lx.line as nat) =~= lex_spec(
                    s,
                ));
            }
        }
        lx.start = lx.current;
        let ghost pre = lx;
        lx.add_basic_token(TokenKind::Eof);
        proof {
            assert(scan_from(s, pre.current as nat, pre.line as nat) =~= seq![
                TokenView { kind: KindView::Eof, start: s.len(), end: s.len(), line: pre.line as nat },
            ]);
            assert(lx.views() =~= lex_spec(s));
        }
        lx.tokens
    }

    /// One scanning step: consumes at least one character and emits the
    /// tokens that [`scan_from`] prescribes for it.
    fn scan_token(&mut self)
        requires
            old(self).wf(),
            old(self).toks_src_ok(),
            old(self).start == old(self).current,
            old(self).current < old(self).src().len(),
        ensures
            final(self).wf(),
            final(self).toks_src_ok(),
            final(self).source == old(self).source,
            old(self).current < final(self).current,
            final(self).views().len() >= old(self).views().len(),
            final(self).views().take(old(self).views().len() as int) == old(self).views(),
            scan_from(old(self).src(), old(self).current as nat, old(self).line as nat)
                == final(self).views().skip(old(self).views().len() as int) + scan_from(
                final(self).src(),
                final(self).current as nat,
                final(self).line as nat,
            ),
    {
        let ghost s = old(self).src();
        let ghost i = old(self).current as nat;
        let ghost line0 = old(self).line as nat;
        let c = self.advance();
        match c {
            '(' => self.add_basic_token(TokenKind::LeftParen),
            ')' => self.add_basic_token(TokenKind::RightParen),
            '{' => self.add_basic_token(TokenKind::LeftBrace),
            '}' => self.add_basic_token(TokenKind::RightBrace),
            ',' => self.add_basic_token(TokenKind::Comma),
            ';' => self.add_basic_token(TokenKind::Semicolon),
            '*' => self.add_basic_token(TokenKind::Star),
            ' ' | '\t' | '\r' => {},
            '\n' => {
                self.line = self.line + 1;
            },
            '"' | '\'' | '`' => self.string(c),
            _ => {
                if char_is_alphabetic(c) {
                    self.identifier();
                }
            },
        }
        proof {
            let emitted = self.views().skip(old(self).views().len() as int);
            assert(self.views().take(old(self).views().len() as int) =~= old(self).views());
            assert(self.views() =~= old(self).views() + emitted);
            assert(scan_from(s, i, line0) =~= emitted + scan_from(
                self.src(),
                self.current as nat,
                self.line as nat,
            ));
        }
    }

    /// Scans the remainder of a string literal whose opening quote was just
    /// consumed. On finding the closing quote, emits a `Str` token carrying
    /// the contents between the quotes; if input ends first, the malformed
    /// literal is dropped and no token is emitted.
    fn string(&mut self, open_quote: char)
        requires
            old(self).wf(),
            old(self).toks_src_ok(),
            old(self).start + 1 == old(self).current,
        ensures
            final(self).wf(),
            final(self).toks_src_ok(),
            final(self).source == old(self).source,
            final(self).line == old(self).line,
            final(self).start == old(self).start,
            ({
                let j = close_quote(old(self).src(), old(self).current as nat, open_quote);
                if j >= old(self).src().len() {
                    final(self).current == old(self).src().len() && final(self).views() == old(
                        self,
                    ).views()
                } else {
                    final(self).current == j + 1 && final(self).views() == old(self).views().push(
                        (TokenView {
                            kind: KindView::Str(
                                old(self).src().subrange(old(self).start as int + 1, j as int),
                            ),
                            start: old(self).start as nat,
                            end: j + 1,
                            line: old(self).line as nat,
                        }),
                    )
                }
            }),
    {
        proof {
            lemma_close_quote(old(self).src(), old(self).current as nat, open_quote);
        }
        self.eat_while_not(open_quote);
        if self.is_at_end() {
            return ;
        }
        self.advance();
        let text = self.get_lexeme(&Range(self.start + 1, self.current - 1));
        self.add_basic_token(TokenKind::Str(text));
    }

    /// Scans the remainder of an identifier whose first character was just
    /// consumed, and emits it classified against the keyword table.
    fn identifier(&mut self)
        requires
            old(self).wf(),
            old(self).toks_src_ok(),
            old(self).start + 1 == old(self).current,
        ensures
            final(self).wf(),
            final(self).toks_src_ok(),
            final(self).source == old(self).source,
            final(self).line == old(self).line,
            final(self).start == old(self).start,
            ({
                let j = ident_end(old(self).src(), old(self).current as nat);
                final(self).current == j && final(self).views() == old(self).views().push(
                    (TokenView {
                        kind: keyword_kind(old(self).src().subrange(old(self).start as int, j as int)),
                        start: old(self).start as nat,
                        end: j,
                        line: old(self).line as nat,
                    }),
                )
            }),
    {
        proof {
            lemma_ident_end(old(self).src(), old(self).current as nat);
        }
        self.eat_while_alphanumeric();
        let lexeme = self.source.range(&Range(self.start, self.current));
        let kind = token_kind_for_text(lexeme);
        self.add_basic_token(kind);
    }

    /// The lexeme between the current token start and cursor, as a string.
    #[allow(dead_code)]
    fn get_current_lexeme(&self) -> (s: String)
        requires
            self.wf(),
        ensures
            s@ == self.src().subrange(self.start as int, self.current as int),
    {
        self.get_lexeme(&Range(self.start, self.current))
    }

    /// The characters a span covers, as a string.
    fn get_lexeme(&self, range: &Range) -> (s: String)
        requires
            range.0 <= range.1 <= self.src().len(),
        ensures
            s@ == self.src().subrange(range.0 as int, range.1 as int),
    {
        crate::token::chars_to_string(self.source.range(range))
    }

    /// Consumes the next character when it is exactly `c`.
    #[allow(dead_code)]
    fn eat(&mut self, c: char) -> (r: bool)
        requires
            old(self).wf(),
        ensures
            final(self).wf(),
            r == (old(self).current < old(self).src().len() && old(self).src()[old(
                self,
            ).current as int] == c),
            final(self).tokens == old(self).tokens,
            final(self).source == old(self).source,
            final(self).start == old(self).start,
            final(self).line == old(self).line,
            final(self).current == if r {
                old(self).current + 1
            } else {
                old(self).current as int
            },
    {
        if self.next_is(c) {
            self.advance();
            true
        } else {
            false
        }
    }

    /// Consumes characters up to (not including) the next occurrence of
    /// `stop`, or to end of input if there is none.
    fn eat_while_not(&mut self, stop: char)
        requires
            old(self).wf(),
        ensures
            final(self).wf(),
            final(self).tokens == old(self).tokens,
            final(self).source == old(self).source,
            final(self).start == old(self).start,
            final(self).line == old(self).line,
            final(self).current == close_quote(old(self).src(), old(self).current as nat, stop),
    {
        proof {
            lemma_close_quote(old(self).src(), old(self).current as nat, stop);
        }
        loop
            invariant
                self.wf(),
                self.tokens == old(self).tokens,
                self.source == old(self).source,
                self.start == old(self).start,
                self.line == old(self).line,
                old(self).current <= self.current,
                close_quote(self.src(), self.current as nat, stop) == close_quote(
                    old(self).src(),
                    old(self).current as nat,
                    stop,
                ),
            ensures
                self.wf(),
                self.tokens == old(self).tokens,
                self.source == old(self).source,
                self.start == old(self).start,
                self.line == old(self).line,
                self.current == close_quote(old(self).src(), old(self).current as nat, stop),
            decreases self.src().len() - self.current,
        {
            let p = self.peek();
            match p {
                Some(c) => {
                    if c == stop {
                        break ;
                    }
                },
                None => {
                    break ;
                },
            }
            self.advance();
        }
    }

    /// Consumes characters while they are alphanumeric.
    fn eat_while_alphanumeric(&mut self)
        requires
            old(self).wf(),
        ensures
            final(self).wf(),
            final(self).tokens == old(self).tokens,
            final(self).source == old(self).source,
            final(self).start == old(self).start,
            final(self).line == old(self).line,
            final(self).current == ident_end(old(self).src(), old(self).current as nat),
    {
        proof {
            lemma_ident_end(old(self).src(), old(self).current as nat);
        }
        loop
            invariant
                self.wf(),
                self.tokens == old(self).tokens,
                self.source == old(self).source,
                self.start == old(self).start,
                self.line == old(self).line,
                old(self).current <= self.current,
                ident_end(self.src(), self.current as nat) == ident_end(
                    old(self).src(),
                    old(self).current as nat,
                ),
            ensures
                self.wf(),
                self.tokens == old(self).tokens,
                self.source == old(self).source,
                self.start == old(self).start,
                self.line == old(self).line,
                self.current == ident_end(old(self).src(), old(self).current as nat),
            decreases self.src().len() - self.current,
        {
            let p = self.peek();
            match p {
                Some(c) => {
                    if !char_is_alphanumeric(c) {
                        break ;
                    }
                },
                None => {
                    break ;
                },
            }
            self.advance();
        }
    }

    /// Whether the next character is exactly `c`.
    #[allow(dead_code)]
    fn next_is(&self, c: char) -> (r: bool)
        ensures
            r == (self.current < self.src().len() && self.src()[self.current as int] == c),
    {
        match self.peek() {
            Some(ch) => ch == c,
            None => false,
        }
    }

    /// Consumes and returns the next character.
    fn advance(&mut self) -> (c: char)
        requires
            old(self).wf(),
            old(self).current < old(self).src().len(),
        ensures
            final(self).wf(),
            final(self).current == old(self).current + 1,
            c == old(self).src()[old(self).current as int],
            final(self).tokens == old(self).tokens,
            final(self).source == old(self).source,
            final(self).start == old(self).start,
            final(self).line == old(self).line,
    {
        let copt = self.source.get(self.current);
        self.current = self.current + 1;
        *copt.unwrap()
    }

    /// The next character, if any, without consuming it.
    fn peek(&self) -> (c: Option<char>)
        ensures
            match c {
                Some(ch) => self.current < self.src().len() && ch == self.src()[self.current as int],
                None => self.current >= self.src().len(),
            },
    {
        self.peek_nth(0)
    }

    /// The character `n` places past the cursor, if any.
    fn peek_nth(&self, n: usize) -> (c: Option<char>)
        requires
            self.current + n <= usize::MAX,
        ensures
            match c {
                Some(ch) => self.current + n < self.src().len() && ch == self.src()[self.current
                    + n],
                None => self.current + n >= self.src().len(),
            },
    {
        match self.source.get(self.current + n) {
            Some(ch) => Some(*ch),
            None => None,
        }
    }

    /// Whether the cursor stands at or past end of input.
    fn is_at_end(&self) -> (r: bool)
        ensures
            r == (self.current >= self.src().len()),
    {
        self.current >= self.source.len()
    }

    /// Emits a token of the given kind covering the span from the current
    /// token start to the cursor.
    fn add_basic_token(&mut self, kind: TokenKind)
        requires
            old(self).toks_src_ok(),
        ensures
            final(self).views() == old(self).views().push(
                (TokenView {
                    kind: kind@,
                    start: old(self).start as nat,
                    end: old(self).current as nat,
                    line: old(self).line as nat,
                }),
            ),
            final(self).toks_src_ok(),
            final(self).current == old(self).current,
            final(self).start == old(self).start,
            final(self).line == old(self).line,
            final(self).source == old(self).source,
    {
        let ghost k = kind@;
        let t = self.token(kind);
        self.add_token(t);
    }

    /// Appends one token to the output.
    fn add_token(&mut self, token: Token)
        ensures
            final(self).tokens@ == old(self).tokens@.push(token),
            final(self).current == old(self).current,
            final(self).start == old(self).start,
            final(self).line == old(self).line,
            final(self).source == old(self).source,
            final(self).views() == old(self).views().push(token@),
    {
        self.tokens.push(token);
        proof {
            assert(self.views() =~= old(self).views().push(token@));
        }
    }

    /// Builds a token of the given kind over the current span, sharing the
    /// lexer's source buffer.
    fn token(&self, kind: TokenKind) -> (t: Token)
        ensures
            t@ == (TokenView {
                kind: kind@,
                start: self.start as nat,
                end: self.current as nat,
                line: self.line as nat,
            }),
            t.source@ == self.source@,
    {
        Token {
            source: Rc::clone(&self.source),
            kind,
            span: Range(self.start, self.current),
            line: self.line,
        }
    }
}

/// Classifies an identifier-shaped lexeme: one of the five keywords when it
/// matches exactly, a plain identifier otherwise.
fn token_kind_for_text(text: &[char]) -> (k: TokenKind)
    ensures
        k@ == keyword_kind(text@),
{
    if matches6(text, 'i', 'm', 'p', 'o', 'r', 't') {
        TokenKind::Import
    } else if matches6(text, 'e', 'x', 'p', 'o', 'r', 't') {
        TokenKind::Export
    } else if matches2(text, 'a', 's') {
        TokenKind::As
    } else if matches4(text, 'f', 'r', 'o', 'm') {
        TokenKind::Frm
    } else if matches4(text, 't', 'y', 'p', 'e') {
        TokenKind::Type
    } else {
        TokenKind::Identifier
    }
}

fn matches2(t: &[char], c0: char, c1: char) -> (r: bool)
    ensures
        r == (t@ == seq![c0, c1]),
{
    let r = t.len() == 2 && *vstd::slice::slice_index_get(t, 0) == c0
        && *vstd::slice::slice_index_get(t, 1) == c1;
    proof {
        if r {
            assert(t@ =~= seq![c0, c1]);
        }
    }
    r
}

fn matches4(t: &[char], c0: char, c1: char, c2: char, c3: char) -> (r: bool)
    ensures
        r == (t@ == seq![c0, c1, c2, c3]),
{
    let r = t.len() == 4 && *vstd::slice::slice_index_get(t, 0) == c0
        && *vstd::slice::slice_index_get(t, 1) == c1 && *vstd::slice::slice_index_get(t, 2) == c2
        && *vstd::slice::slice_index_get(t, 3) == c3;
    proof {
        if r {
            assert(t@ =~= seq![c0, c1, c2, c3]);
        }
    }
    r
}

fn matches6(t: &[char], c0: char, c1: char, c2: char, c3: char, c4: char, c5: char) -> (r: bool)
    ensures
        r == (t@ == seq![c0, c1, c2, c3, c4, c5]),
{
    let r = t.len() == 6 && *vstd::slice::slice_index_get(t, 0) == c0
        && *vstd::slice::slice_index_get(t, 1) == c1 && *vstd::slice::slice_index_get(t, 2) == c2
        && *vstd::slice::slice_index_get(t, 3) == c3 && *vstd::slice::slice_index_get(t, 4) == c4
        && *vstd::slice::slice_index_get(t, 5) == c5;
    proof {
        if r {
            assert(t@ =~= seq![c0, c1, c2, c3, c4, c5]);
        }
    }
    r
}

/// Converts a string slice to its characters, in order.
fn str_to_chars(s: &str) -> (v: Vec<char>)
    ensures
        v@ == s@,
{
    let n = s.unicode_len();
    let mut v: Vec<char> = Vec::new();
    let mut i: usize = 0;
    while i < n
        invariant
            i <= n,
            n == s@.len(),
            v@ =~= s@.subrange(0, i as int),
        decreases n - i,
    {
        let c = s.get_char(i);
        v.push(c);
        i = i + 1;
        proof {
            assert(v@ =~= s@.subrange(0, i as int));
        }
    }
    proof {
        assert(v@ =~= s@);
    }
    v
}

proof fn lemma_scan_whitespace(s: Seq<char>, i: nat, line: nat)
    requires
        i <= s.len(),
        forall|k: int| i <= k < s.len() ==> is_blank(#[trigger] s[k]) || s[k] == '\n',
    ensures
        scan_from(s, i, line).len() == 1,
        scan_from(s, i, line)[0].kind is Eof,
    decreases s.len() - i,
{
    if i < s.len() {
        if is_blank(s[i as int]) {
            lemma_scan_whitespace(s, i + 1, line);
        } else {
            lemma_scan_whitespace(s, i + 1, line + 1);
        }
    }
}

/// For any input consisting solely of whitespace, the lexed token sequence
/// is exactly one token, the `Eof` marker.
pub proof fn lemma_whitespace_only_lexes_to_eof(s: Seq<char>)
    requires
        forall|k: int| 0 <= k < s.len() ==> is_blank(#[trigger] s[k]) || s[k] == '\n',
    ensures
        lex_spec(s).len() == 1,
        lex_spec(s)[0].kind is Eof,
{
    lemma_scan_whitespace(s, 0, 1);
}

proof fn lemma_scan_eof_terminated(s: Seq<char>, i: nat, line: nat)
    requires
        i <= s.len(),
    ensures
        scan_from(s, i, line).len() >= 1,
        scan_from(s, i, line).last().kind is Eof,
        forall|j: int|
            0 <= j < scan_from(s, i, line).len() - 1 ==> !((#[trigger] scan_from(s, i, line)[j]).kind
                is Eof),
    decreases s.len() - i,
{
    if i < s.len() {
        let c = s[i as int];
        if is_punct(c) {
            lemma_scan_eof_terminated(s, i + 1, line);
        } else if is_blank(c) {
            lemma_scan_eof_terminated(s, i + 1, line);
        } else if c == '\n' {
            lemma_scan_eof_terminated(s, i + 1, line + 1);
        } else if is_quote(c) {
            lemma_close_quote(s, i + 1, c);
            let j = close_quote(s, i + 1, c);
            if j < s.len() {
                lemma_scan_eof_terminated(s, j + 1, line);
            }
        } else if alphabetic(c) {
            lemma_ident_end(s, i + 1);
            lemma_scan_eof_terminated(s, ident_end(s, i + 1), line);
        } else {
            lemma_scan_eof_terminated(s, i + 1, line);
        }
    }
}

/// Whatever the input, the lexed token sequence ends with exactly one `Eof`
/// token: it is nonempty, its last token is `Eof`, and no other is.
pub proof fn lemma_lex_ends_with_exactly_one_eof(s: Seq<char>)
    ensures
        lex_spec(s).len() >= 1,
        lex_spec(s).last().kind is Eof,
        forall|j: int|
            0 <= j < lex_spec(s).len() - 1 ==> !((#[trigger] lex_spec(s)[j]).kind is Eof),
{
    lemma_scan_eof_terminated(s, 0, 1);
}

proof fn lemma_close_quote_finds(s: Seq<char>, i: nat, j: nat, q: char)
    requires
        i <= j < s.len(),
        s[j as int] == q,
        forall|k: int| i <= k < j ==> s[k] != q,
    ensures
        close_quote(s, i, q) == j,
    decreases j - i,
{
    if i < j {
        lemma_close_quote_finds(s, i + 1, j, q);
    }
}

/// For any string literal — an opening quote, contents free of that quote
/// character, and the closing quote — the produced `Str` token's payload is
/// the contents exactly, with no quote characters included; the literal
/// lexes to that one token and the `Eof` marker.
pub proof fn lemma_string_literal_payload(q: char, text: Seq<char>)
    requires
        is_quote(q),
        forall|k: int| 0 <= k < text.len() ==> text[k] != q,
    ensures
        ({
            let s = seq![q] + text + seq![q];
            &&& lex_spec(s).len() == 2
            &&& lex_spec(s)[0].kind == KindView::Str(text)
            &&& lex_spec(s)[0].start == 0
            &&& lex_spec(s)[0].end == s.len()
            &&& lex_spec(s)[1].kind is Eof
        }),
{
    let s = seq![q] + text + seq![q];
    assert(s.len() == text.len() + 2);
    assert(s[0] == q);
    assert(s[s.len() - 1] == q);
    assert(forall|k: int| 1 <= k < s.len() - 1 ==> s[k] == text[k - 1]);
    lemma_close_quote_finds(s, 1, (s.len() - 1) as nat, q);
    assert(s.subrange(1, s.len() - 1) =~= text);
    assert(scan_from(s, s.len() as nat, 1) =~= seq![
        TokenView { kind: KindView::Eof, start: s.len(), end: s.len(), line: 1 },
    ]);
    assert(lex_spec(s) =~= seq![
        TokenView { kind: KindView::Str(text), start: 0, end: s.len(), line: 1 },
        TokenView { kind: KindView::Eof, start: s.len(), end: s.len(), line: 1 },
    ]);
}

/// Lexes `source` into its token sequence, under the source name `name`.
///
/// The result is exactly the token sequence [`lex_spec`] describes, and every
/// token shares one source buffer holding `name` and the characters of
/// `source`.
pub fn lex(name: String, source: &str) -> (tokens: Vec<Token>)
    requires
        source@.len() < usize::MAX,
    ensures
        tokens@.map_values(|t: Token| t@) == lex_spec(source@),
        forall|k: int|
            0 <= k < tokens@.len() ==> (#[trigger] tokens@[k]).source@ == (crate::token::SourceView {
                name: name@,
                chars: source@,
            }),
{
    let chars = str_to_chars(source);
    Lexer::new(name, chars).lex()
}

/// Idempotence: two lexes of the same source text — under any source names —
/// agree on the kind, span and line of every token; only the source identity
/// each token carries may differ.
pub proof fn lemma_lex_idempotent(
    name1: String,
    name2: String,
    source1: &str,
    source2: &str,
    out1: Vec<Token>,
    out2: Vec<Token>,
)
    requires
        source1@ == source2@,
        call_ensures(lex, (name1, source1), out1),
        call_ensures(lex, (name2, source2), out2),
    ensures
        out1@.map_values(|t: Token| t@) == out2@.map_values(|t: Token| t@),
{
}

} // verus!
