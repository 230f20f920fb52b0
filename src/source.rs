use vstd::prelude::*;

use crate::lexer::tokens::SpecToken;
use crate::lexer::{lex, tokenize, LexError};
use crate::parser::parse;
use crate::parser::parse::block::tree;
use crate::parser::structs::{Expression, SpecExpression};
use crate::parser::types::ParseError;

verus! {

/// Why a text has no syntax tree.
#[derive(Debug, PartialEq, Eq, Structural, Clone, Copy)]
pub enum SourceError {
    Lex(LexError),
    Parse(ParseError),
}

/// The syntax tree of a text: its tokens, parsed.
pub open spec fn source_tree(chars: Seq<char>) -> Result<SpecExpression, SourceError> {
    match lex(chars) {
        Err(e) => Err(SourceError::Lex(e)),
        Ok(ts) => match tree(ts) {
            Ok(e) => Ok(e),
            Err(e) => Err(SourceError::Parse(e)),
        },
    }
}

/// Tokenizes and parses a whole text; see `source_tree`.
pub fn parse_source(content: &str) -> (r: Result<Expression, SourceError>)
    requires
        content@.len() < u32::MAX,
    ensures
        match source_tree(content@) {
            Ok(e) => r matches Ok(x) && x@ == e,
            Err(err) => r == Err::<Expression, SourceError>(err),
        },
{
    match tokenize(content) {
        Err(e) => Err(SourceError::Lex(e)),
        Ok(tokens) => match parse(tokens.as_slice()) {
            Ok(e) => Ok(e),
            Err(e) => Err(SourceError::Parse(e)),
        },
    }
}

/// Parsing keeps no state from one pass to the next: the same text always
/// tokenizes to the same tokens and parses to the same tree, or fails with the
/// same error.
pub proof fn lemma_source_tree_deterministic(a: Seq<char>, b: Seq<char>)
    requires
        a == b,
    ensures
        lex(a) == lex(b),
        source_tree(a) == source_tree(b),
{
}

} // verus!
