use depscan::find_dependencies;
use depscan::token::TokenKind;

fn deps(source: &str) -> Vec<TokenKind> {
    find_dependencies(source)
        .iter()
        .map(|dep| dep.path.kind.clone())
        .collect()
}

#[test]
fn main_test_dynamic_import() {
    assert_eq!(
        deps("import('bar')"),
        vec![TokenKind::Str("bar".to_string())]
    );
}

#[test]
fn test_dynamic_import_with_assignment() {
    assert_eq!(
        deps("const foo = import('bar');"),
        vec![TokenKind::Str("bar".to_string())],
    );
}

#[test]
fn test_dynamic_import_with_await() {
    assert_eq!(
        deps("await import('bar');"),
        vec![TokenKind::Str("bar".to_string())],
    );
}

#[test]
fn main_test_default_import() {
    assert_eq!(
        deps("import foo from 'bar'"),
        vec![TokenKind::Str("bar".to_string())]
    );
}

#[test]
fn test_multiple_imports() {
    assert_eq!(
        deps("import first from 'first';\nimport { second } from 'second'; import * as third from 'third'"),
        vec![
            TokenKind::Str("first".to_string()),
            TokenKind::Str("second".to_string()),
            TokenKind::Str("third".to_string()),
        ]
    );
}

#[test]
fn main_test_destructured_import() {
    assert_eq!(
        deps("import {foo} from 'bar'"),
        vec![TokenKind::Str("bar".to_string())]
    );
}

#[test]
fn main_test_namespace_import() {
    assert_eq!(
        deps("import * as foo from 'bar'"),
        vec![TokenKind::Str("bar".to_string())]
    );
}

#[test]
fn main_test_destructured_export() {
    assert_eq!(
        deps("export {foo} from 'bar'"),
        vec![TokenKind::Str("bar".to_string())]
    );
}

#[test]
fn main_test_namespace_export() {
    assert_eq!(
        deps("export * as foo from 'bar'"),
        vec![TokenKind::Str("bar".to_string())]
    );
}

#[test]
fn test_empty_source_yields_zero_dependencies() {
    assert_eq!(deps(""), vec![]);
}

#[test]
fn test_import_dyn_scenario() {
    assert_eq!(deps("import('dyn')"), vec![TokenKind::Str("dyn".to_string())]);
}

#[test]
fn test_import_braced_scenario() {
    assert_eq!(
        deps("import { one, two } from \"module\""),
        vec![TokenKind::Str("module".to_string())]
    );
}

#[test]
fn test_namespace_scenarios() {
    assert_eq!(
        deps("import * as ns from 'pkg'"),
        vec![TokenKind::Str("pkg".to_string())]
    );
    assert_eq!(
        deps("export * as ns from 'pkg'"),
        vec![TokenKind::Str("pkg".to_string())]
    );
}

#[test]
fn test_round_trip_statement_sequence() {
    let source = "import('one') import two from 'two'\nimport { a, b } from 'three'\nimport * as c from 'four'\nexport { d } from 'five'\nexport * as e from 'six'";
    assert_eq!(
        deps(source),
        vec![
            TokenKind::Str("one".to_string()),
            TokenKind::Str("two".to_string()),
            TokenKind::Str("three".to_string()),
            TokenKind::Str("four".to_string()),
            TokenKind::Str("five".to_string()),
            TokenKind::Str("six".to_string()),
        ]
    );
}

#[test]
fn test_dependency_source_name() {
    let found = find_dependencies("import foo from 'bar'");
    assert_eq!(found.len(), 1);
    assert_eq!(found[0].path.name(), "'bar'");
}
