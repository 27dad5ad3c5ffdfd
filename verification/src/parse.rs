//! The recursive-descent dependency parser: one left-to-right pass over a
//! token sequence, recognizing the import/export grammar forms and emitting
//! one [`Dependency`] per form found.
//!
//! The meaning of the pass is pinned down by specification-level functions
//! ([`dep_indices_from`], [`diag_indices_from`]) that mirror the descent;
//! [`parse`] and [`parse_with`] are proved to return exactly what they
//! describe.

use vstd::prelude::*;

use crate::dependency::Dependency;
use crate::token::{KindView, Token, TokenKind, TokenView};

verus! {

/// The views of a token sequence.
pub open spec fn token_views(tokens: Seq<Token>) -> Seq<TokenView> {
    tokens.map_values(|t: Token| t@)
}

/// Whether the cursor stands at the end of the parse: past the last token,
/// or on the `Eof` token.
pub open spec fn at_end(ts: Seq<TokenView>, i: nat) -> bool {
    i >= ts.len() || ts[i as int].kind is Eof
}

/// The token a diagnostic reports when the cursor stands at `i`: the token
/// there, or — when the cursor has run past the last token — the one before.
pub open spec fn diag_at(ts: Seq<TokenView>, i: nat) -> nat {
    if i < ts.len() {
        i
    } else {
        (i - 1) as nat
    }
}

/// Whether the token at `i` exists and has exactly kind `k`.
pub open spec fn sp_eat(ts: Seq<TokenView>, i: nat, k: KindView) -> bool {
    i < ts.len() && ts[i as int].kind == k
}

/// Whether the token at `i` exists and is a string literal.
pub open spec fn sp_is_str(ts: Seq<TokenView>, i: nat) -> bool {
    i < ts.len() && ts[i as int].kind is Str
}

/// The outcome of attempting one grammar form with the cursor at some
/// position: either the index of the path token of a recognized form, or the
/// index of the token a diagnostic reports; and the cursor afterwards.
pub struct FormRes {
    pub dep: Option<nat>,
    pub diag: Option<nat>,
    pub next: nat,
}

/// The first position at or after `i` that stops the brace-skipping scan: a
/// `}`, the `Eof` token, or the end of the sequence.
pub open spec fn rbrace_scan(ts: Seq<TokenView>, i: nat) -> nat
    decreases ts.len() - i,
{
    if i >= ts.len() {
        i
    } else if ts[i as int].kind is RightBrace || ts[i as int].kind is Eof {
        i
    } else {
        rbrace_scan(ts, i + 1)
    }
}

proof fn lemma_rbrace_scan(ts: Seq<TokenView>, i: nat)
    requires
        i <= ts.len(),
    ensures
        i <= rbrace_scan(ts, i) <= ts.len(),
        rbrace_scan(ts, i) < ts.len() ==> (ts[rbrace_scan(ts, i) as int].kind is RightBrace
            || ts[rbrace_scan(ts, i) as int].kind is Eof),
        forall|k: int|
            i <= k < rbrace_scan(ts, i) ==> !((#[trigger] ts[k].kind) is RightBrace || ts[k].kind
                is Eof),
    decreases ts.len() - i,
{
    if i < ts.len() && !(ts[i as int].kind is RightBrace || ts[i as int].kind is Eof) {
        lemma_rbrace_scan(ts, i + 1);
    }
}

/// The dynamic-import tail `<string> ')'`, entered with `import` and `(`
/// already consumed.
pub open spec fn sp_dynamic_import(ts: Seq<TokenView>, i: nat) -> FormRes {
    if !sp_is_str(ts, i) {
        FormRes { dep: None, diag: Some(diag_at(ts, i)), next: i }
    } else if !sp_eat(ts, i + 1, KindView::RightParen) {
        FormRes { dep: None, diag: Some(diag_at(ts, i + 1)), next: i + 1 }
    } else {
        FormRes { dep: Some(i), diag: None, next: i + 2 }
    }
}

/// The braced tail `... '}' 'from' <string>`, entered with `{` already
/// consumed: tokens are skipped without inspection up to the first `}` (or
/// the end of input).
pub open spec fn sp_braced(ts: Seq<TokenView>, i: nat) -> FormRes {
    let j = rbrace_scan(ts, i);
    if !sp_eat(ts, j, KindView::RightBrace) {
        FormRes { dep: None, diag: Some(diag_at(ts, j)), next: j }
    } else if !sp_eat(ts, j + 1, KindView::Frm) {
        FormRes { dep: None, diag: Some(diag_at(ts, j + 1)), next: j + 1 }
    } else if !sp_is_str(ts, j + 2) {
        FormRes { dep: None, diag: Some(diag_at(ts, j + 2)), next: j + 2 }
    } else {
        FormRes { dep: Some(j + 2), diag: None, next: j + 3 }
    }
}

/// The namespace tail `'as' <identifier> 'from' <string>`, entered with `*`
/// already consumed.
pub open spec fn sp_starred(ts: Seq<TokenView>, i: nat) -> FormRes {
    if !sp_eat(ts, i, KindView::As) {
        FormRes { dep: None, diag: Some(diag_at(ts, i)), next: i }
    } else if !sp_eat(ts, i + 1, KindView::Identifier) {
        FormRes { dep: None, diag: Some(diag_at(ts, i + 1)), next: i + 1 }
    } else if !sp_eat(ts, i + 2, KindView::Frm) {
        FormRes { dep: None, diag: Some(diag_at(ts, i + 2)), next: i + 2 }
    } else if !sp_is_str(ts, i + 3) {
        FormRes { dep: None, diag: Some(diag_at(ts, i + 3)), next: i + 3 }
    } else {
        FormRes { dep: Some(i + 3), diag: None, next: i + 4 }
    }
}

/// The default-import form `<identifier> 'from' <string>`, falling through
/// to the other import bodies when no identifier stands at `i`.
pub open spec fn sp_default_import(ts: Seq<TokenView>, i: nat) -> FormRes {
    if sp_eat(ts, i, KindView::Identifier) {
        if !sp_eat(ts, i + 1, KindView::Frm) {
            FormRes { dep: None, diag: Some(diag_at(ts, i + 1)), next: i + 1 }
        } else if !sp_is_str(ts, i + 2) {
            FormRes { dep: None, diag: Some(diag_at(ts, i + 2)), next: i + 2 }
        } else {
            FormRes { dep: Some(i + 2), diag: None, next: i + 3 }
        }
    } else {
        sp_destructured_import(ts, i)
    }
}

/// The destructured-import form, falling through to the namespace form.
pub open spec fn sp_destructured_import(ts: Seq<TokenView>, i: nat) -> FormRes {
    if sp_eat(ts, i, KindView::LeftBrace) {
        sp_braced(ts, i + 1)
    } else {
        sp_namespace_import(ts, i)
    }
}

/// The namespace-import form; when nothing matches, the diagnostic for an
/// `import` keyword followed by no recognized body.
pub open spec fn sp_namespace_import(ts: Seq<TokenView>, i: nat) -> FormRes {
    if sp_eat(ts, i, KindView::Star) {
        sp_starred(ts, i + 1)
    } else {
        FormRes { dep: None, diag: Some(diag_at(ts, i)), next: i }
    }
}

/// The import bodies, entered with `import` already consumed.
pub open spec fn sp_import(ts: Seq<TokenView>, i: nat) -> FormRes {
    if sp_eat(ts, i, KindView::LeftParen) {
        sp_dynamic_import(ts, i + 1)
    } else {
        sp_default_import(ts, i)
    }
}

/// The export bodies, entered with `export` already consumed: destructured,
/// then namespace; when neither matches, a diagnostic.
pub open spec fn sp_destructured_export(ts: Seq<TokenView>, i: nat) -> FormRes {
    if sp_eat(ts, i, KindView::LeftBrace) {
        sp_braced(ts, i + 1)
    } else {
        sp_namespace_export(ts, i)
    }
}

/// The namespace-export form; when nothing matches, the diagnostic for an
/// `export` keyword followed by no recognized body.
pub open spec fn sp_namespace_export(ts: Seq<TokenView>, i: nat) -> FormRes {
    if sp_eat(ts, i, KindView::Star) {
        sp_starred(ts, i + 1)
    } else {
        FormRes { dep: None, diag: Some(diag_at(ts, i)), next: i }
    }
}

/// One whole statement, entered with the cursor on its leading `import` or
/// `export` keyword.
pub open spec fn sp_stmt(ts: Seq<TokenView>, i: nat) -> FormRes {
    if ts[i as int].kind is Import {
        sp_import(ts, i + 1)
    } else {
        sp_destructured_export(ts, i + 1)
    }
}

proof fn lemma_sp_stmt(ts: Seq<TokenView>, i: nat)
    requires
        i < ts.len(),
        ts[i as int].kind is Import || ts[i as int].kind is Export,
    ensures
        i < sp_stmt(ts, i).next <= ts.len(),
        sp_stmt(ts, i).dep matches Some(k) ==> k < ts.len() && ts[k as int].kind is Str,
        sp_stmt(ts, i).diag matches Some(k) ==> k < ts.len(),
        sp_stmt(ts, i).dep is Some <==> sp_stmt(ts, i).diag is None,
{
    if sp_eat(ts, i + 1, KindView::LeftBrace) {
        lemma_rbrace_scan(ts, i + 2);
    }
}

/// The indices of the path tokens of the recognized statements, scanning
/// from `i`: the parse's dependency output, in source order.
pub open spec fn dep_indices_from(ts: Seq<TokenView>, i: nat) -> Seq<nat>
    decreases ts.len() - i,
    via dep_indices_from_decreases
{
    if at_end(ts, i) {
        Seq::empty()
    } else if ts[i as int].kind is Import || ts[i as int].kind is Export {
        let r = sp_stmt(ts, i);
        (match r.dep {
            Some(d) => seq![d],
            None => Seq::empty(),
        }) + dep_indices_from(ts, r.next)
    } else {
        dep_indices_from(ts, i + 1)
    }
}

#[via_fn]
proof fn dep_indices_from_decreases(ts: Seq<TokenView>, i: nat) {
    if !at_end(ts, i) && (ts[i as int].kind is Import || ts[i as int].kind is Export) {
        lemma_sp_stmt(ts, i);
    }
}

/// The recovery policy for a token at statement start that begins no
/// import/export statement: report it and skip it, or skip it silently.
pub enum Recovery {
    /// Record a diagnostic for the unexpected token, then skip it and retry.
    Report,
    /// Scan for the next `import`/`export` keyword, ignoring other tokens.
    Ignore,
}

/// The indices of the tokens the parse diagnoses, scanning from `i`:
/// grammar mismatches inside committed statements always; unexpected tokens
/// at statement start only under [`Recovery::Report`].
pub open spec fn diag_indices_from(ts: Seq<TokenView>, i: nat, recovery: Recovery) -> Seq<nat>
    decreases ts.len() - i,
    via diag_indices_from_decreases
{
    if at_end(ts, i) {
        Seq::empty()
    } else if ts[i as int].kind is Import || ts[i as int].kind is Export {
        let r = sp_stmt(ts, i);
        (match r.diag {
            Some(d) => seq![d],
            None => Seq::empty(),
        }) + diag_indices_from(ts, r.next, recovery)
    } else {
        (match recovery {
            Recovery::Report => seq![i],
            Recovery::Ignore => Seq::empty(),
        }) + diag_indices_from(ts, i + 1, recovery)
    }
}

#[via_fn]
proof fn diag_indices_from_decreases(ts: Seq<TokenView>, i: nat, recovery: Recovery) {
    if !at_end(ts, i) && (ts[i as int].kind is Import || ts[i as int].kind is Export) {
        lemma_sp_stmt(ts, i);
    }
}

/// The views of the path tokens a token sequence parses to.
pub open spec fn dep_views(ts: Seq<TokenView>) -> Seq<TokenView> {
    dep_indices_from(ts, 0).map_values(|k: nat| ts[k as int])
}

/// A recoverable grammar mismatch: the token at which it was noticed, and a
/// human-readable account of what was expected.
pub struct ParseErr {
    pub token: Token,
    pub message: String,
}

/// The token kinds the parser tests the cursor against (a string literal is
/// sought by shape alone, whatever its contents).
#[derive(Clone, Copy, Debug)]
pub enum Expected {
    LeftParen,
    RightParen,
    LeftBrace,
    RightBrace,
    Star,
    Identifier,
    Str,
    Frm,
    As,
    Import,
    Export,
}

/// What it means for a token kind to match an [`Expected`] shape.
pub open spec fn expected_matches(k: KindView, e: Expected) -> bool {
    match e {
        Expected::LeftParen => k is LeftParen,
        Expected::RightParen => k is RightParen,
        Expected::LeftBrace => k is LeftBrace,
        Expected::RightBrace => k is RightBrace,
        Expected::Star => k is Star,
        Expected::Identifier => k is Identifier,
        Expected::Str => k is Str,
        Expected::Frm => k is Frm,
        Expected::As => k is As,
        Expected::Import => k is Import,
        Expected::Export => k is Export,
    }
}

fn kind_matches(k: &TokenKind, e: Expected) -> (r: bool)
    ensures
        r == expected_matches(k@, e),
{
    match (k, e) {
        (TokenKind::LeftParen, Expected::LeftParen) => true,
        (TokenKind::RightParen, Expected::RightParen) => true,
        (TokenKind::LeftBrace, Expected::LeftBrace) => true,
        (TokenKind::RightBrace, Expected::RightBrace) => true,
        (TokenKind::Star, Expected::Star) => true,
        (TokenKind::Identifier, Expected::Identifier) => true,
        (TokenKind::Str(_), Expected::Str) => true,
        (TokenKind::Frm, Expected::Frm) => true,
        (TokenKind::As, Expected::As) => true,
        (TokenKind::Import, Expected::Import) => true,
        (TokenKind::Export, Expected::Export) => true,
        _ => false,
    }
}

struct Parser {
    tokens: Vec<Token>,
    current: usize,
}

/// What every grammar-form method guarantees: the cursor lands where the
/// specification says, and the result carries exactly the token the
/// specification points at.
pub open spec fn form_post(
    toks: Seq<Token>,
    res: FormRes,
    post_cur: nat,
    r: Result<Dependency, ParseErr>,
) -> bool {
    &&& post_cur == res.next
    &&& (match r {
        Ok(d) => res.diag is None && (match res.dep {
            Some(k) => k < toks.len() && d.path@ == toks[k as int]@ && d.path.source@
                == toks[k as int].source@,
            None => false,
        }),
        Err(e) => res.dep is None && (match res.diag {
            Some(k) => k < toks.len() && e.token@ == toks[k as int]@,
            None => false,
        }),
    })
}

impl Parser {
    /// The views of the tokens being parsed.
    spec fn ts(self) -> Seq<TokenView> {
        token_views(self.tokens@)
    }

    spec fn wf(self) -> bool {
        self.current <= self.tokens@.len()
    }

    /// Whether the cursor stands at the end of the parse: past the last
    /// token, or on the `Eof` token.
    fn is_at_end(&self) -> (r: bool)
        requires
            self.wf(),
        ensures
            r == at_end(self.ts(), self.current as nat),
    {
        if self.current >= self.tokens.len() {
            return true;
        }
        match &self.tokens[self.current].kind {
            TokenKind::Eof => true,
            _ => false,
        }
    }

    /// Whether the token under the cursor matches `e`.
    fn check(&self, e: Expected) -> (r: bool)
        requires
            self.wf(),
        ensures
            r == (self.current < self.ts().len() && expected_matches(
                self.ts()[self.current as int].kind,
                e,
            )),
    {
        if self.current < self.tokens.len() {
            kind_matches(&self.tokens[self.current].kind, e)
        } else {
            false
        }
    }

    /// Consumes the token under the cursor when it matches `e`.
    fn did_eat(&mut self, e: Expected) -> (r: bool)
        requires
            old(self).wf(),
        ensures
            final(self).wf(),
            final(self).tokens == old(self).tokens,
            r == (old(self).current < old(self).ts().len() && expected_matches(
                old(self).ts()[old(self).current as int].kind,
                e,
            )),
            final(self).current == if r {
                old(self).current + 1
            } else {
                old(self).current as int
            },
    {
        if self.check(e) {
            let n = self.tokens.len();
            assert(self.current < n);
            self.current = self.current + 1;
            true
        } else {
            false
        }
    }

    /// Consumes and returns the token under the cursor when it matches `e`;
    /// otherwise a diagnostic built from `message` and the token at the
    /// cursor (or the last token, when the cursor has run past the end).
    fn consume(&mut self, e: Expected, message: &str) -> (r: Result<Token, ParseErr>)
        requires
            old(self).wf(),
            old(self).tokens@.len() >= 1,
        ensures
            final(self).wf(),
            final(self).tokens == old(self).tokens,
            ({
                let ts = old(self).ts();
                let i = old(self).current as nat;
                if i < ts.len() && expected_matches(ts[i as int].kind, e) {
                    &&& final(self).current == i + 1
                    &&& (r matches Ok(t) && t@ == ts[i as int] && t.source@ == old(
                        self,
                    ).tokens@[i as int].source@)
                } else {
                    &&& final(self).current == i
                    &&& (r matches Err(pe) && pe.token@ == ts[diag_at(ts, i) as int])
                }
            }),
    {
        if self.check(e) {
            let n = self.tokens.len();
            assert(self.current < n);
            let t = self.tokens[self.current].clone();
            self.current = self.current + 1;
            Ok(t)
        } else {
            Err(ParseErr { message: message.to_owned(), token: self.err_token() })
        }
    }

    /// The token a diagnostic at the cursor reports.
    fn err_token(&self) -> (t: Token)
        requires
            self.wf(),
            self.tokens@.len() >= 1,
        ensures
            t@ == self.ts()[diag_at(self.ts(), self.current as nat) as int],
            t.source@ == self.tokens@[diag_at(self.ts(), self.current as nat) as int].source@,
    {
        if self.current < self.tokens.len() {
            self.peek()
        } else {
            self.previous()
        }
    }

    /// The token under the cursor.
    fn peek(&self) -> (t: Token)
        requires
            self.current < self.tokens@.len(),
        ensures
            t@ == self.ts()[self.current as int],
            t.source@ == self.tokens@[self.current as int].source@,
    {
        self.tokens[self.current].clone()
    }

    /// The token just before the cursor.
    fn previous(&self) -> (t: Token)
        requires
            1 <= self.current,
            self.current <= self.tokens@.len(),
        ensures
            t@ == self.ts()[self.current - 1],
            t.source@ == self.tokens@[self.current - 1].source@,
    {
        self.tokens[self.current - 1].clone()
    }

    /// Consumes one token, whatever it is.
    fn advance(&mut self)
        requires
            old(self).wf(),
            old(self).current < old(self).tokens@.len(),
        ensures
            final(self).wf(),
            final(self).tokens == old(self).tokens,
            final(self).current == old(self).current + 1,
    {
        let n = self.tokens.len();
        assert(self.current < n);
        self.current = self.current + 1;
    }

    /// One statement, entered with the cursor on `import` or `export`.
    fn import_or_export(&mut self) -> (r: Result<Dependency, ParseErr>)
        requires
            old(self).wf(),
            old(self).current < old(self).ts().len(),
            old(self).ts()[old(self).current as int].kind is Import || old(self).ts()[old(
                self,
            ).current as int].kind is Export,
        ensures
            final(self).wf(),
            final(self).tokens == old(self).tokens,
            form_post(
                old(self).tokens@,
                sp_stmt(old(self).ts(), old(self).current as nat),
                final(self).current as nat,
                r,
            ),
    {
        if self.did_eat(Expected::Import) {
            self.import()
        } else {
            self.export()
        }
    }

    /// The import bodies: dynamic, then default (which itself falls through
    /// to destructured and namespace).
    fn import(&mut self) -> (r: Result<Dependency, ParseErr>)
        requires
            old(self).wf(),
            old(self).tokens@.len() >= 1,
        ensures
            final(self).wf(),
            final(self).tokens == old(self).tokens,
            form_post(
                old(self).tokens@,
                sp_import(old(self).ts(), old(self).current as nat),
                final(self).current as nat,
                r,
            ),
    {
        if self.did_eat(Expected::LeftParen) {
            self.dynamic_import()
        } else {
            self.default_import()
        }
    }

    /// The dynamic-import tail `<string> ')'`.
    fn dynamic_import(&mut self) -> (r: Result<Dependency, ParseErr>)
        requires
            old(self).wf(),
            old(self).tokens@.len() >= 1,
        ensures
            final(self).wf(),
            final(self).tokens == old(self).tokens,
            form_post(
                old(self).tokens@,
                sp_dynamic_import(old(self).ts(), old(self).current as nat),
                final(self).current as nat,
                r,
            ),
    {
        let path = match self.consume(Expected::Str, "Expect a string") {
            Ok(t) => t,
            Err(e) => {
                return Err(e);
            },
        };
        match self.consume(Expected::RightParen, "Expect ) after dynamic import.") {
            Ok(_) => {},
            Err(e) => {
                return Err(e);
            },
        }
        Ok(Dependency { path })
    }

    /// The default-import form `<identifier> 'from' <string>`.
    fn default_import(&mut self) -> (r: Result<Dependency, ParseErr>)
        requires
            old(self).wf(),
            old(self).tokens@.len() >= 1,
        ensures
            final(self).wf(),
            final(self).tokens == old(self).tokens,
            form_post(
                old(self).tokens@,
                sp_default_import(old(self).ts(), old(self).current as nat),
                final(self).current as nat,
                r,
            ),
    {
        if self.did_eat(Expected::Identifier) {
            match self.consume(Expected::Frm, "Expect 'from' keyword.") {
                Ok(_) => {},
                Err(e) => {
                    return Err(e);
                },
            }
            let path = match self.consume(Expected::Str, "Expect a string.") {
                Ok(t) => t,
                Err(e) => {
                    return Err(e);
                },
            };
            Ok(Dependency { path })
        } else {
            self.destructured_import()
        }
    }

    /// Skips tokens without inspection up to the first `}`, the `Eof` token
    /// or the end of input.
    fn skip_to_rbrace(&mut self)
        requires
            old(self).wf(),
        ensures
            final(self).wf(),
            final(self).tokens == old(self).tokens,
            final(self).current == rbrace_scan(old(self).ts(), old(self).current as nat),
    {
        proof {
            lemma_rbrace_scan(old(self).ts(), old(self).current as nat);
        }
        loop
            invariant
                self.wf(),
                self.tokens == old(self).tokens,
                old(self).current <= self.current,
                rbrace_scan(self.ts(), self.current as nat) == rbrace_scan(
                    old(self).ts(),
                    old(self).current as nat,
                ),
            ensures
                self.wf(),
                self.tokens == old(self).tokens,
                self.current == rbrace_scan(old(self).ts(), old(self).current as nat),
            decreases self.ts().len() - self.current,
        {
            if self.check(Expected::RightBrace) {
                break ;
            }
            if self.is_at_end() {
                break ;
            }
            self.advance();
        }
    }

    /// The destructured-import form `'{' ... '}' 'from' <string>`.
    fn destructured_import(&mut self) -> (r: Result<Dependency, ParseErr>)
        requires
            old(self).wf(),
            old(self).tokens@.len() >= 1,
        ensures
            final(self).wf(),
            final(self).tokens == old(self).tokens,
            form_post(
                old(self).tokens@,
                sp_destructured_import(old(self).ts(), old(self).current as nat),
                final(self).current as nat,
                r,
            ),
    {
        if self.did_eat(Expected::LeftBrace) {
            self.skip_to_rbrace();
            match self.consume(Expected::RightBrace, "Expect } after destructured import symbols.") {
                Ok(_) => {},
                Err(e) => {
                    return Err(e);
                },
            }
            match self.consume(Expected::Frm, "Expect 'from' after destructure.") {
                Ok(_) => {},
                Err(e) => {
                    return Err(e);
                },
            }
            let path = match self.consume(Expected::Str, "Expect a string.") {
                Ok(t) => t,
                Err(e) => {
                    return Err(e);
                },
            };
            Ok(Dependency { path })
        } else {
            self.namespace_import()
        }
    }

    /// The namespace-import form `'*' 'as' <identifier> 'from' <string>`;
    /// when no recognized import body begins here, the diagnostic for the
    /// whole `import` statement.
    fn namespace_import(&mut self) -> (r: Result<Dependency, ParseErr>)
        requires
            old(self).wf(),
            old(self).tokens@.len() >= 1,
        ensures
            final(self).wf(),
            final(self).tokens == old(self).tokens,
            form_post(
                old(self).tokens@,
                sp_namespace_import(old(self).ts(), old(self).current as nat),
                final(self).current as nat,
                r,
            ),
    {
        if self.did_eat(Expected::Star) {
            self.starred()
        } else {
            Err(
                ParseErr {
                    token: self.err_token(),
                    message: "Expect dynamic, default, destructured, or namespace import after 'import' keyword".to_owned(),
                },
            )
        }
    }

    /// The namespace tail `'as' <identifier> 'from' <string>`, shared by the
    /// import and export namespace forms.
    fn starred(&mut self) -> (r: Result<Dependency, ParseErr>)
        requires
            old(self).wf(),
            old(self).tokens@.len() >= 1,
        ensures
            final(self).wf(),
            final(self).tokens == old(self).tokens,
            form_post(
                old(self).tokens@,
                sp_starred(old(self).ts(), old(self).current as nat),
                final(self).current as nat,
                r,
            ),
    {
        match self.consume(Expected::As, "Expect 'as' after '*'.") {
            Ok(_) => {},
            Err(e) => {
                return Err(e);
            },
        }
        match self.consume(Expected::Identifier, "Expect identifier after 'as'.") {
            Ok(_) => {},
            Err(e) => {
                return Err(e);
            },
        }
        match self.consume(Expected::Frm, "Expect 'from' after identifier.") {
            Ok(_) => {},
            Err(e) => {
                return Err(e);
            },
        }
        let path = match self.consume(Expected::Str, "Expect a string.") {
            Ok(t) => t,
            Err(e) => {
                return Err(e);
            },
        };
        Ok(Dependency { path })
    }

    /// One export statement, entered with the cursor on `export`.
    fn export(&mut self) -> (r: Result<Dependency, ParseErr>)
        requires
            old(self).wf(),
            old(self).current < old(self).ts().len(),
            old(self).ts()[old(self).current as int].kind is Export,
        ensures
            final(self).wf(),
            final(self).tokens == old(self).tokens,
            form_post(
                old(self).tokens@,
                sp_destructured_export(old(self).ts(), old(self).current as nat + 1),
                final(self).current as nat,
                r,
            ),
    {
        let _ = self.did_eat(Expected::Export);
        self.destructured_export()
    }

    /// The destructured-export form `'{' ... '}' 'from' <string>`.
    fn destructured_export(&mut self) -> (r: Result<Dependency, ParseErr>)
        requires
            old(self).wf(),
            old(self).tokens@.len() >= 1,
        ensures
            final(self).wf(),
            final(self).tokens == old(self).tokens,
            form_post(
                old(self).tokens@,
                sp_destructured_export(old(self).ts(), old(self).current as nat),
                final(self).current as nat,
                r,
            ),
    {
        if self.did_eat(Expected::LeftBrace) {
            self.skip_to_rbrace();
            match self.consume(Expected::RightBrace, "Expect } after destructured export symbols.") {
                Ok(_) => {},
                Err(e) => {
                    return Err(e);
                },
            }
            match self.consume(Expected::Frm, "Expect 'from' after destructure.") {
                Ok(_) => {},
                Err(e) => {
                    return Err(e);
                },
            }
            let path = match self.consume(Expected::Str, "Expect a string.") {
                Ok(t) => t,
                Err(e) => {
                    return Err(e);
                },
            };
            Ok(Dependency { path })
        } else {
            self.namespace_export()
        }
    }

    /// The namespace-export form; when no recognized export body begins
    /// here, the diagnostic for the whole `export` statement.
    fn namespace_export(&mut self) -> (r: Result<Dependency, ParseErr>)
        requires
            old(self).wf(),
            old(self).tokens@.len() >= 1,
        ensures
            final(self).wf(),
            final(self).tokens == old(self).tokens,
            form_post(
                old(self).tokens@,
                sp_namespace_export(old(self).ts(), old(self).current as nat),
                final(self).current as nat,
                r,
            ),
    {
        if self.did_eat(Expected::Star) {
            self.starred()
        } else {
            Err(
                ParseErr {
                    token: self.err_token(),
                    message: "Expect destructured or namespace export after 'export' keyword".to_owned(),
                },
            )
        }
    }

    /// The top-level driver: walks the whole token sequence, parsing a
    /// statement wherever an `import`/`export` keyword stands and treating
    /// any other token at statement start according to the recovery policy.
    fn parse(&mut self, recovery: Recovery) -> (out: (Vec<Dependency>, Vec<ParseErr>))
        requires
            old(self).wf(),
            old(self).current == 0,
        ensures
            out.0@.map_values(|d: Dependency| d.path@) == dep_views(old(self).ts()),
            out.1@.map_values(|e: ParseErr| e.token@) == diag_indices_from(
                old(self).ts(),
                0,
                recovery,
            ).map_values(|k: nat| old(self).ts()[k as int]),
            forall|j: int|
                0 <= j < out.0@.len() ==> exists|k: int|
                    0 <= k < old(self).tokens@.len() && (#[trigger] out.0@[j]).path@ == old(
                        self,
                    ).tokens@[k]@ && out.0@[j].path.source@ == old(self).tokens@[k].source@,
    {
        let ghost ts = self.ts();
        let ghost toks = self.tokens@;
        let mut deps: Vec<Dependency> = Vec::new();
        let mut errs: Vec<ParseErr> = Vec::new();
        proof {
            assert(deps@.map_values(|d: Dependency| d.path@) =~= Seq::<TokenView>::empty());
            assert(errs@.map_values(|e: ParseErr| e.token@) =~= Seq::<TokenView>::empty());
        }
        loop
            invariant
                self.wf(),
                self.tokens@ == toks,
                ts == self.ts(),
                deps@.map_values(|d: Dependency| d.path@) + dep_indices_from(
                    ts,
                    self.current as nat,
                ).map_values(|k: nat| ts[k as int]) =~= dep_views(ts),
                errs@.map_values(|e: ParseErr| e.token@) + diag_indices_from(
                    ts,
                    self.current as nat,
                    recovery,
                ).map_values(|k: nat| ts[k as int]) =~= diag_indices_from(ts, 0, recovery).map_values(
                    |k: nat| ts[k as int],
                ),
                forall|j: int|
                    0 <= j < deps@.len() ==> exists|k: int|
                        0 <= k < toks.len() && (#[trigger] deps@[j]).path@ == toks[k]@
                            && deps@[j].path.source@ == toks[k].source@,
            ensures
                self.wf(),
                self.tokens@ == toks,
                at_end(ts, self.current as nat),
                deps@.map_values(|d: Dependency| d.path@) + dep_indices_from(
                    ts,
                    self.current as nat,
                ).map_values(|k: nat| ts[k as int]) =~= dep_views(ts),
                errs@.map_values(|e: ParseErr| e.token@) + diag_indices_from(
                    ts,
                    self.current as nat,
                    recovery,
                ).map_values(|k: nat| ts[k as int]) =~= diag_indices_from(ts, 0, recovery).map_values(
                    |k: nat| ts[k as int],
                ),
                forall|j: int|
                    0 <= j < deps@.len() ==> exists|k: int|
                        0 <= k < toks.len() && (#[trigger] deps@[j]).path@ == toks[k]@
                            && deps@[j].path.source@ == toks[k].source@,
            decreases ts.len() - self.current,
        {
            if self.is_at_end() {
                break ;
            }
            let ghost i = self.current as nat;
            if self.check(Expected::Import) || self.check(Expected::Export) {
                proof {
                    lemma_sp_stmt(ts, i);
                }
                match self.import_or_export() {
                    Ok(dep) => {
                        deps.push(dep);
                        proof {
                            let r = sp_stmt(ts, i);
                            assert(dep_indices_from(ts, i) =~= seq![r.dep->0] + dep_indices_from(
                                ts,
                                r.next,
                            ));
                        }
                    },
                    Err(e) => {
                        errs.push(e);
                        proof {
                            let r = sp_stmt(ts, i);
                            assert(diag_indices_from(ts, i, recovery) =~= seq![r.diag->0]
                                + diag_indices_from(ts, r.next, recovery));
                        }
                    },
                }
                proof {
                    let r = sp_stmt(ts, i);
                    assert(deps@.map_values(|d: Dependency| d.path@) + dep_indices_from(
                        ts,
                        self.current as nat,
                    ).map_values(|k: nat| ts[k as int]) =~= dep_views(ts));
                    assert(errs@.map_values(|e: ParseErr| e.token@) + diag_indices_from(
                        ts,
                        self.current as nat,
                        recovery,
                    ).map_values(|k: nat| ts[k as int]) =~= diag_indices_from(
                        ts,
                        0,
                        recovery,
                    ).map_values(|k: nat| ts[k as int]));
                }
            } else {
                match recovery {
                    Recovery::Report => {
                        let e = ParseErr {
                            token: self.peek(),
                            message: "Expect an import or export statement.".to_owned(),
                        };
                        errs.push(e);
                    },
                    Recovery::Ignore => {},
                }
                self.advance();
                proof {
                    assert(dep_indices_from(ts, i) =~= dep_indices_from(ts, i + 1));
                    assert(deps@.map_values(|d: Dependency| d.path@) + dep_indices_from(
                        ts,
                        self.current as nat,
                    ).map_values(|k: nat| ts[k as int]) =~= dep_views(ts));
                    assert(errs@.map_values(|e: ParseErr| e.token@) + diag_indices_from(
                        ts,
                        self.current as nat,
                        recovery,
                    ).map_values(|k: nat| ts[k as int]) =~= diag_indices_from(
                        ts,
                        0,
                        recovery,
                    ).map_values(|k: nat| ts[k as int]));
                }
            }
        }
        proof {
            assert(dep_indices_from(ts, self.current as nat) =~= Seq::<nat>::empty());
            assert(diag_indices_from(ts, self.current as nat, recovery) =~= Seq::<nat>::empty());
            assert(deps@.map_values(|d: Dependency| d.path@) =~= dep_views(ts));
            assert(errs@.map_values(|e: ParseErr| e.token@) =~= diag_indices_from(
                ts,
                0,
                recovery,
            ).map_values(|k: nat| ts[k as int]));
        }
        (deps, errs)
    }
}

proof fn lemma_dep_indices_are_strings(ts: Seq<TokenView>, i: nat)
    requires
        i <= ts.len(),
    ensures
        forall|j: int|
            0 <= j < dep_indices_from(ts, i).len() ==> ({
                let k = #[trigger] dep_indices_from(ts, i)[j];
                k < ts.len() && ts[k as int].kind is Str
            }),
    decreases ts.len() - i,
{
    if !at_end(ts, i) {
        if ts[i as int].kind is Import || ts[i as int].kind is Export {
            lemma_sp_stmt(ts, i);
            lemma_dep_indices_are_strings(ts, sp_stmt(ts, i).next);
        } else {
            lemma_dep_indices_are_strings(ts, i + 1);
        }
    }
}

/// Every dependency a parse produces carries a string-literal token: its
/// path's kind is always `Str`.
pub proof fn lemma_dependencies_are_strings(ts: Seq<TokenView>)
    ensures
        forall|j: int|
            0 <= j < dep_views(ts).len() ==> (#[trigger] dep_views(ts)[j]).kind is Str,
{
    lemma_dep_indices_are_strings(ts, 0);
}

/// The token shape of a whole dynamic-import statement `import '(' <string> ')'`.
pub open spec fn is_dynamic_import_stmt(w: Seq<TokenView>) -> bool {
    &&& w.len() == 4
    &&& w[0].kind is Import
    &&& w[1].kind is LeftParen
    &&& w[2].kind is Str
    &&& w[3].kind is RightParen
}

/// The token shape of a whole default-import statement `import <identifier> from <string>`.
pub open spec fn is_default_import_stmt(w: Seq<TokenView>) -> bool {
    &&& w.len() == 4
    &&& w[0].kind is Import
    &&& w[1].kind is Identifier
    &&& w[2].kind is Frm
    &&& w[3].kind is Str
}

/// The token shape of a whole destructured import or export statement
/// `import/export '{' ... '}' from <string>`: the braced middle holds
/// neither a `}` nor an `Eof` token.
pub open spec fn is_destructured_stmt(w: Seq<TokenView>) -> bool {
    &&& w.len() >= 5
    &&& (w[0].kind is Import || w[0].kind is Export)
    &&& w[1].kind is LeftBrace
    &&& (forall|k: int|
        2 <= k < w.len() - 3 ==> !((#[trigger] w[k].kind) is RightBrace || w[k].kind is Eof))
    &&& w[w.len() - 3].kind is RightBrace
    &&& w[w.len() - 2].kind is Frm
    &&& w[w.len() - 1].kind is Str
}

/// The token shape of a whole namespace import or export statement
/// `import/export '*' as <identifier> from <string>`.
pub open spec fn is_namespace_stmt(w: Seq<TokenView>) -> bool {
    &&& w.len() == 6
    &&& (w[0].kind is Import || w[0].kind is Export)
    &&& w[1].kind is Star
    &&& w[2].kind is As
    &&& w[3].kind is Identifier
    &&& w[4].kind is Frm
    &&& w[5].kind is Str
}

/// A well-formed statement: one of the recognized import/export forms, whole.
pub open spec fn stmt_shape(w: Seq<TokenView>) -> bool {
    ||| is_dynamic_import_stmt(w)
    ||| is_default_import_stmt(w)
    ||| is_destructured_stmt(w)
    ||| is_namespace_stmt(w)
}

/// The position of a well-formed statement's path token within it.
pub open spec fn stmt_path_idx(w: Seq<TokenView>) -> int {
    if is_dynamic_import_stmt(w) {
        2
    } else {
        w.len() - 1
    }
}

/// A well-formed statement's path token.
pub open spec fn stmt_path(w: Seq<TokenView>) -> TokenView {
    w[stmt_path_idx(w)]
}

proof fn lemma_rbrace_scan_finds(ts: Seq<TokenView>, i: nat, j: nat)
    requires
        i <= j < ts.len(),
        ts[j as int].kind is RightBrace || ts[j as int].kind is Eof,
        forall|k: int| i <= k < j ==> !((#[trigger] ts[k].kind) is RightBrace || ts[k].kind is Eof),
    ensures
        rbrace_scan(ts, i) == j,
    decreases j - i,
{
    if i < j {
        lemma_rbrace_scan_finds(ts, i + 1, j);
    }
}

proof fn lemma_stmt_at(ts: Seq<TokenView>, i: nat, w: Seq<TokenView>)
    requires
        stmt_shape(w),
        i + w.len() <= ts.len(),
        ts.subrange(i as int, (i + w.len()) as int) == w,
    ensures
        ts[i as int].kind is Import || ts[i as int].kind is Export,
        sp_stmt(ts, i).dep == Some((i + stmt_path_idx(w)) as nat),
        sp_stmt(ts, i).diag is None,
        sp_stmt(ts, i).next == i + w.len(),
{
    assert(forall|k: int| 0 <= k < w.len() ==> ts[i + k] == #[trigger] w[k]) by {
        assert(forall|k: int|
            0 <= k < w.len() ==> #[trigger] w[k] == ts.subrange(i as int, (i + w.len()) as int)[k]);
    }
    if is_destructured_stmt(w) {
        assert forall|k: int| i + 2 <= k < i + w.len() - 3 implies !((#[trigger] ts[k].kind)
            is RightBrace || ts[k].kind is Eof) by {
            assert(ts[i + (k - i)] == w[k - i]);
        }
        lemma_rbrace_scan_finds(ts, i + 2, (i + w.len() - 3) as nat);
    }
}

proof fn lemma_parse_stmts_from(ts: Seq<TokenView>, i: nat, stmts: Seq<Seq<TokenView>>)
    requires
        forall|j: int| 0 <= j < stmts.len() ==> stmt_shape(#[trigger] stmts[j]),
        i + stmts.flatten().len() <= ts.len(),
        ts.subrange(i as int, (i + stmts.flatten().len()) as int) == stmts.flatten(),
        at_end(ts, (i + stmts.flatten().len()) as nat),
    ensures
        dep_indices_from(ts, i).map_values(|k: nat| ts[k as int]) =~= stmts.map_values(
            |w: Seq<TokenView>| stmt_path(w),
        ),
    decreases stmts.len(),
{
    let flat = stmts.flatten();
    if stmts.len() == 0 {
        assert(flat =~= Seq::<TokenView>::empty());
        assert(at_end(ts, i));
        assert(dep_indices_from(ts, i) =~= Seq::<nat>::empty());
        assert(stmts.map_values(|w: Seq<TokenView>| stmt_path(w)) =~= Seq::<TokenView>::empty());
    } else {
        let w = stmts.first();
        let rest = stmts.drop_first();
        assert(flat == w + rest.flatten());
        assert(w.len() >= 4);
        assert(ts.subrange(i as int, (i + w.len()) as int) =~= w) by {
            assert(forall|k: int|
                0 <= k < flat.len() ==> ts[i + k] == #[trigger] flat[k]) by {
                assert(forall|k: int|
                    0 <= k < flat.len() ==> #[trigger] flat[k] == ts.subrange(
                        i as int,
                        (i + flat.len()) as int,
                    )[k]);
            }
        }
        lemma_stmt_at(ts, i, w);
        let next = (i + w.len()) as nat;
        assert(!at_end(ts, i));
        assert(dep_indices_from(ts, i) == seq![(i + stmt_path_idx(w)) as nat] + dep_indices_from(
            ts,
            next,
        ));
        assert(ts.subrange(next as int, (next + rest.flatten().len()) as int) =~= rest.flatten()) by {
            assert(forall|k: int|
                0 <= k < flat.len() ==> ts[i + k] == #[trigger] flat[k]) by {
                assert(forall|k: int|
                    0 <= k < flat.len() ==> #[trigger] flat[k] == ts.subrange(
                        i as int,
                        (i + flat.len()) as int,
                    )[k]);
            }
            assert(forall|k: int|
                0 <= k < rest.flatten().len() ==> #[trigger] rest.flatten()[k] == flat[w.len()
                    + k]);
        }
        lemma_parse_stmts_from(ts, next, rest);
        assert(ts[(i + stmt_path_idx(w)) as int] == w[stmt_path_idx(w)]) by {
            assert(forall|k: int|
                0 <= k < flat.len() ==> ts[i + k] == #[trigger] flat[k]) by {
                assert(forall|k: int|
                    0 <= k < flat.len() ==> #[trigger] flat[k] == ts.subrange(
                        i as int,
                        (i + flat.len()) as int,
                    )[k]);
            }
            assert(flat[stmt_path_idx(w)] == w[stmt_path_idx(w)]);
        }
        assert(dep_indices_from(ts, i).map_values(|k: nat| ts[k as int]) =~= seq![stmt_path(w)]
            + dep_indices_from(ts, next).map_values(|k: nat| ts[k as int]));
        assert(stmts.map_values(|w0: Seq<TokenView>| stmt_path(w0)) =~= seq![stmt_path(w)]
            + rest.map_values(|w0: Seq<TokenView>| stmt_path(w0)));
    }
}

/// Round trip: a token sequence whose front is exactly a concatenation of
/// well-formed import/export statements, with the parse ending right after
/// them (at the `Eof` token or the end of the sequence), parses to exactly
/// one dependency per statement — its path token — in source order.
pub proof fn lemma_round_trip(ts: Seq<TokenView>, stmts: Seq<Seq<TokenView>>)
    requires
        forall|j: int| 0 <= j < stmts.len() ==> stmt_shape(#[trigger] stmts[j]),
        stmts.flatten().len() <= ts.len(),
        ts.subrange(0, stmts.flatten().len() as int) == stmts.flatten(),
        at_end(ts, stmts.flatten().len() as nat),
    ensures
        dep_views(ts) =~= stmts.map_values(|w: Seq<TokenView>| stmt_path(w)),
{
    lemma_parse_stmts_from(ts, 0, stmts);
}

/// Parses a token sequence into its dependencies, with the given recovery
/// policy for tokens at statement start that begin no statement; returns the
/// dependencies in source order together with the diagnostics raised.
pub fn parse_with(tokens: Vec<Token>, recovery: Recovery) -> (out: (Vec<Dependency>, Vec<ParseErr>))
    ensures
        out.0@.map_values(|d: Dependency| d.path@) == dep_views(token_views(tokens@)),
        out.1@.map_values(|e: ParseErr| e.token@) == diag_indices_from(
            token_views(tokens@),
            0,
            recovery,
        ).map_values(|k: nat| token_views(tokens@)[k as int]),
        forall|j: int|
            0 <= j < out.0@.len() ==> exists|k: int|
                0 <= k < tokens@.len() && (#[trigger] out.0@[j]).path@ == tokens@[k]@
                    && out.0@[j].path.source@ == tokens@[k].source@,
{
    let mut parser = Parser { tokens, current: 0 };
    parser.parse(recovery)
}

/// Parses a token sequence into its dependencies, in source order; tokens at
/// statement start that begin no import/export statement are skipped, and
/// diagnostics are dropped. [`parse_with`] returns them instead.
pub fn parse(tokens: Vec<Token>) -> (deps: Vec<Dependency>)
    ensures
        deps@.map_values(|d: Dependency| d.path@) == dep_views(token_views(tokens@)),
        forall|j: int|
            0 <= j < deps@.len() ==> exists|k: int|
                0 <= k < tokens@.len() && (#[trigger] deps@[j]).path@ == tokens@[k]@
                    && deps@[j].path.source@ == tokens@[k].source@,
{
    let (deps, _) = parse_with(tokens, Recovery::Ignore);
    deps
}

} // verus!
