use std::rc::Rc;

use depscan::dependency::Dependency;
use depscan::parse::{parse, parse_with, Recovery};
use depscan::token::TokenKind::{
    As, Comma, Eof, Export, Frm, Identifier, Import, LeftBrace, LeftParen, RightBrace, RightParen,
    Star, Str,
};
use depscan::token::{Range, Source, Token, TokenKind};

fn new_token_factory() -> impl Fn(TokenKind) -> Token {
    let source = Rc::new(Source::new("For testing".to_string(), vec![]));
    move |kind| Token {
        kind,
        line: 1,
        span: Range(0, 0),
        source: Rc::clone(&source),
    }
}

#[test]
fn parse_test_dynamic_import() {
    let token = new_token_factory();
    let path = token(Str("./module".to_string()));
    assert_eq!(
        parse(vec![
            token(Import),
            token(LeftParen),
            path.clone(),
            token(RightParen),
        ]),
        vec![Dependency { path }],
    );
}

#[test]
fn parse_test_default_import() {
    let token = new_token_factory();
    let path = token(Str("./module".to_string()));
    assert_eq!(
        parse(vec![
            token(Import),
            token(Identifier),
            token(Frm),
            path.clone(),
        ]),
        vec![Dependency { path }],
    );
}

#[test]
fn parse_test_destructured_import() {
    let token = new_token_factory();
    let path = token(Str("./module".to_string()));
    assert_eq!(
        parse(vec![
            token(Import),
            token(LeftBrace),
            token(Identifier),
            token(Comma),
            token(Identifier),
            token(RightBrace),
            token(Frm),
            path.clone(),
        ]),
        vec![Dependency { path }],
    );
}

#[test]
fn test_destructured_import_trailing_comma() {
    let token = new_token_factory();
    let path = token(Str("./module".to_string()));
    assert_eq!(
        parse(vec![
            token(Import),
            token(LeftBrace),
            token(Identifier),
            token(Comma),
            token(Identifier),
            token(Comma),
            token(RightBrace),
            token(Frm),
            path.clone(),
        ]),
        vec![Dependency { path }],
    );
}

#[test]
fn parse_test_namespace_import() {
    let token = new_token_factory();
    let path = token(Str("./module".to_string()));
    assert_eq!(
        parse(vec![
            token(Import),
            token(Star),
            token(As),
            token(Identifier),
            token(Frm),
            path.clone(),
        ]),
        vec![Dependency { path }],
    );
}

#[test]
fn parse_test_namespace_export() {
    let token = new_token_factory();
    let path = token(Str("bar".to_string()));
    assert_eq!(
        parse(vec![
            token(Export),
            token(Star),
            token(As),
            token(Identifier),
            token(Frm),
            path.clone(),
            token(Eof),
        ]),
        vec![Dependency { path }],
    )
}

#[test]
fn test_empty_token_sequence_yields_no_dependencies() {
    assert_eq!(parse(vec![]), vec![]);
}

#[test]
fn test_import_without_recognized_body_is_diagnosed() {
    let token = new_token_factory();
    let (deps, errs) = parse_with(
        vec![token(Import), token(TokenKind::Semicolon), token(Eof)],
        Recovery::Ignore,
    );
    assert_eq!(deps, vec![]);
    assert_eq!(errs.len(), 1);
}

#[test]
fn test_export_without_recognized_body_is_diagnosed() {
    let token = new_token_factory();
    let (deps, errs) = parse_with(
        vec![token(Export), token(Identifier), token(Eof)],
        Recovery::Ignore,
    );
    assert_eq!(deps, vec![]);
    assert_eq!(errs.len(), 1);
}

#[test]
fn test_missing_from_is_diagnosed() {
    let token = new_token_factory();
    let (deps, errs) = parse_with(
        vec![token(Import), token(Identifier), token(Eof)],
        Recovery::Ignore,
    );
    assert_eq!(deps, vec![]);
    assert_eq!(errs.len(), 1);
}

#[test]
fn test_missing_right_paren_is_diagnosed() {
    let token = new_token_factory();
    let (deps, errs) = parse_with(
        vec![
            token(Import),
            token(LeftParen),
            token(Str("x".to_string())),
            token(Eof),
        ],
        Recovery::Ignore,
    );
    assert_eq!(deps, vec![]);
    assert_eq!(errs.len(), 1);
}

#[test]
fn test_unclosed_brace_is_diagnosed() {
    let token = new_token_factory();
    let (deps, errs) = parse_with(
        vec![token(Import), token(LeftBrace), token(Identifier), token(Eof)],
        Recovery::Ignore,
    );
    assert_eq!(deps, vec![]);
    assert_eq!(errs.len(), 1);
}

#[test]
fn test_missing_path_string_is_diagnosed() {
    let token = new_token_factory();
    let (deps, errs) = parse_with(
        vec![
            token(Import),
            token(Star),
            token(As),
            token(Identifier),
            token(Frm),
            token(Eof),
        ],
        Recovery::Ignore,
    );
    assert_eq!(deps, vec![]);
    assert_eq!(errs.len(), 1);
}

#[test]
fn test_recovery_policies_agree_on_dependencies() {
    let token = new_token_factory();
    let make = |token: &dyn Fn(TokenKind) -> Token| {
        vec![
            token(Identifier),
            token(Import),
            token(LeftParen),
            token(Str("x".to_string())),
            token(RightParen),
            token(Eof),
        ]
    };
    let (deps_report, errs_report) = parse_with(make(&token), Recovery::Report);
    let (deps_ignore, errs_ignore) = parse_with(make(&token), Recovery::Ignore);
    assert_eq!(deps_report, deps_ignore);
    // the leading identifier is reported under one policy, ignored under the other
    assert_eq!(errs_report.len(), 1);
    assert_eq!(errs_ignore.len(), 0);
}

#[test]
fn test_token_equality_goes_by_source_name() {
    let a = Token {
        kind: Identifier,
        span: Range(0, 1),
        line: 1,
        source: Rc::new(Source::new("same".to_string(), vec!['x'])),
    };
    let b = Token {
        kind: Identifier,
        span: Range(0, 1),
        line: 1,
        source: Rc::new(Source::new("same".to_string(), vec!['y'])),
    };
    let c = Token {
        kind: Identifier,
        span: Range(0, 1),
        line: 1,
        source: Rc::new(Source::new("other".to_string(), vec!['x'])),
    };
    // same name: equal even though the buffers hold different characters
    assert_eq!(a, b);
    assert_ne!(a, c);
}

#[test]
fn test_source_accessors() {
    let source = Source::new("s".to_string(), vec!['a', 'b', 'c']);
    assert_eq!(source.len(), 3);
    assert_eq!(source.get(1), Some(&'b'));
    assert_eq!(source.get(3), None);
    assert_eq!(source.range(&Range(1, 3)), &['b', 'c']);
}
