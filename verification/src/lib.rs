//! Extracts module-dependency declarations (the path strings named by
//! `import`/`export` statements) from source text in a JavaScript/TypeScript-like
//! surface syntax. A character-level lexer produces a flat token stream and a
//! recursive-descent parser walks that stream, emitting one dependency record
//! per recognized form.

pub mod dependency;
pub mod lex;
pub mod parse;
pub mod token;

use vstd::prelude::*;

verus! {

/// Lexes and parses `source` under the fixed source name `"my module"`,
/// returning the dependencies it declares, in source order.
pub fn find_dependencies(source: &str) -> (deps: Vec<dependency::Dependency>)
    requires
        source@.len() < usize::MAX,
    ensures
        deps@.map_values(|d: dependency::Dependency| d.path@) == parse::dep_views(
            lex::lex_spec(source@),
        ),
{
    parse::parse(lex::lex("my module".to_owned(), source))
}

} // verus!
