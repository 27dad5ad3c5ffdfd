use depscan::lex::lex;
use depscan::token::TokenKind;
use depscan::token::TokenKind::{
    As, Comma, Eof, Export, Frm, Identifier, Import, LeftBrace, LeftParen, RightBrace, RightParen,
    Star, Str,
};

fn to_token_kinds(source: &str) -> Vec<TokenKind> {
    lex("<for testing>".to_string(), source)
        .iter()
        .map(|token| token.kind.clone())
        .collect()
}

#[test]
fn lex_test_default_import() {
    assert_eq!(
        to_token_kinds("import foo from './bar'"),
        vec![Import, Identifier, Frm, Str("./bar".to_string()), Eof],
    );
}

#[test]
fn lex_test_destructured_import() {
    assert_eq!(
        to_token_kinds("import {one, two, three} from \"module\""),
        vec![
            Import,
            LeftBrace,
            Identifier,
            Comma,
            Identifier,
            Comma,
            Identifier,
            RightBrace,
            Frm,
            Str("module".to_string()),
            Eof,
        ],
    );
}

#[test]
fn lex_test_namespace_import() {
    assert_eq!(
        to_token_kinds("import * as foo from 'bar'"),
        vec![
            Import,
            Star,
            As,
            Identifier,
            Frm,
            Str("bar".to_string()),
            Eof,
        ],
    );
}

#[test]
fn lex_test_dynamic_import() {
    assert_eq!(
        to_token_kinds("const { one, two, three } = import(`../../something`)"),
        vec![
            Identifier,
            LeftBrace,
            Identifier,
            Comma,
            Identifier,
            Comma,
            Identifier,
            RightBrace,
            Import,
            LeftParen,
            Str("../../something".to_string()),
            RightParen,
            Eof,
        ],
    );
}

#[test]
fn lex_test_destructured_export() {
    assert_eq!(
        to_token_kinds("export { one, two } from 'bar'"),
        vec![
            Export,
            LeftBrace,
            Identifier,
            Comma,
            Identifier,
            RightBrace,
            Frm,
            Str("bar".to_string()),
            Eof,
        ],
    );
}

#[test]
fn lex_test_namespace_export() {
    assert_eq!(
        to_token_kinds("export * as bar from 'bar'"),
        vec![
            Export,
            Star,
            As,
            Identifier,
            Frm,
            Str("bar".to_string()),
            Eof,
        ],
    );
}

#[test]
fn test_whitespace_only_yields_single_eof() {
    assert_eq!(to_token_kinds(""), vec![Eof]);
    assert_eq!(to_token_kinds(" \t\r\n \n\t"), vec![Eof]);
}

#[test]
fn test_output_ends_with_exactly_one_eof() {
    for source in ["", "import", "=.:", "a b c", "'unterminated", "x(y)"] {
        let kinds = to_token_kinds(source);
        assert!(kinds.len() >= 1);
        assert_eq!(kinds[kinds.len() - 1], Eof);
        assert_eq!(kinds.iter().filter(|k| **k == Eof).count(), 1);
    }
}

#[test]
fn test_string_payload_excludes_quotes() {
    assert_eq!(
        to_token_kinds("\"a'b`c\""),
        vec![Str("a'b`c".to_string()), Eof]
    );
    assert_eq!(
        to_token_kinds("'he said \"hi\"'"),
        vec![Str("he said \"hi\"".to_string()), Eof]
    );
    assert_eq!(to_token_kinds("``"), vec![Str("".to_string()), Eof]);
}

#[test]
fn test_unterminated_string_dropped() {
    assert_eq!(to_token_kinds("'never closed"), vec![Eof]);
    assert_eq!(to_token_kinds("import 'oops"), vec![Import, Eof]);
}

#[test]
fn test_keyword_classification() {
    assert_eq!(
        to_token_kinds("type as from import export"),
        vec![
            TokenKind::Type,
            As,
            Frm,
            Import,
            Export,
            Eof
        ]
    );
    // close to a keyword, but not exactly it: a plain identifier
    assert_eq!(to_token_kinds("important"), vec![Identifier, Eof]);
    assert_eq!(to_token_kinds("Import"), vec![Identifier, Eof]);
}

#[test]
fn test_unknown_characters_consumed_silently() {
    assert_eq!(to_token_kinds("= . : 123 +"), vec![Eof]);
}

#[test]
fn test_unicode_identifier() {
    assert_eq!(to_token_kinds("caf\u{e9} caf3"), vec![Identifier, Identifier, Eof]);
}

#[test]
fn test_lex_idempotent() {
    let source = "import foo from './bar'\nexport * as x from \"y\"; $odd";
    let first = lex("one".to_string(), source);
    let second = lex("two".to_string(), source);
    assert_eq!(first.len(), second.len());
    for (a, b) in first.iter().zip(second.iter()) {
        assert_eq!(a.kind, b.kind);
        assert_eq!(a.span, b.span);
        assert_eq!(a.line, b.line);
    }
}

#[test]
fn test_line_numbers() {
    let tokens = lex("lines".to_string(), "import\nfoo\n\nbar");
    let lines: Vec<usize> = tokens.iter().map(|t| t.line).collect();
    assert_eq!(lines, vec![1, 2, 4, 4]);
}

#[test]
fn test_newline_inside_string_does_not_advance_line() {
    let tokens = lex("q".to_string(), "'a\nb'x");
    assert_eq!(tokens[0].kind, Str("a\nb".to_string()));
    assert_eq!(tokens[0].line, 1);
    // the scan across the literal leaves the line counter untouched
    assert_eq!(tokens[1].kind, Identifier);
    assert_eq!(tokens[1].line, 1);
}

#[test]
fn test_spans_and_name() {
    let tokens = lex("spans".to_string(), "import foo from 'bar'");
    assert_eq!(tokens[0].span, depscan::token::Range(0, 6));
    assert_eq!(tokens[0].name(), "import");
    assert_eq!(tokens[1].name(), "foo");
    // the string token's span covers its quotes, its payload does not
    assert_eq!(tokens[3].span, depscan::token::Range(16, 21));
    assert_eq!(tokens[3].name(), "'bar'");
    assert_eq!(tokens[3].kind, Str("bar".to_string()));
    // the trailing Eof covers the empty span at end of input
    assert_eq!(tokens[4].span, depscan::token::Range(21, 21));
}
