use vstd::prelude::*;

use crate::lexer::tokens::TokenType;
use crate::parser::parse::expression::assignment;
use crate::parser::parse::primary::parse_primary_expression;
use crate::parser::structs::Expression;
use crate::parser::types::{outcome_matches, ParseError, TokenIterator};

verus! {

/// Parses an assignment at the cursor; see `assignment`.
pub fn parse_assigment_expression<'a>(iterator: TokenIterator<'a>) -> (r: Result<
    (TokenIterator<'a>, Expression),
    ParseError,
>)
    requires
        iterator.wf(),
    ensures
        outcome_matches(r, iterator, assignment(iterator.tokens(), iterator.position())),
        r matches Ok((it, _)) ==> iterator.position() + 2 <= it.position() <= iterator.tokens().len(),
{
    let mut iterator = iterator;
    let token = match iterator.next_some() {
        Ok(token) => token,
        Err(err) => return Err(err),
    };
    let name = match token.token_type {
        TokenType::Identifier(name) => name,
        _ => return Err(ParseError::UnexpectedToken { line: token.line, column: token.column }),
    };
    match iterator.next_expected(TokenType::Equal) {
        Ok(()) => {},
        Err(err) => return Err(err),
    }
    match parse_primary_expression(iterator) {
        Ok((it, value)) => Ok((it, Expression::Assignment { name, value: Box::new(value) })),
        Err(err) => Err(err),
    }
}

} // verus!
