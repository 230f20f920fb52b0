use vstd::prelude::*;

use crate::lexer::tokens::{SpecToken, Token};
use crate::lexer::view_tokens;
use crate::parser::parse::expression::{parse_expression, push_front, statement};
use crate::parser::parse::function::lemma_view_expressions_push;
use crate::parser::structs::{view_expressions, Expression, SpecExpression};
use crate::parser::types::{result_matches, ParseError, TokenIterator};

verus! {

/// The statements from position `p` to the end of the tokens, in order, or
/// the first error.
pub open spec fn block(ts: Seq<SpecToken>, p: int) -> Result<Seq<SpecExpression>, ParseError>
    decreases ts.len() - p,
{
    if p < 0 || p >= ts.len() {
        Ok(Seq::empty())
    } else {
        match statement(ts, p) {
            Err(err) => Err(err),
            Ok((s, q)) => if p < q <= ts.len() {
                match block(ts, q) {
                    Ok(rest) => Ok(push_front(s, rest)),
                    Err(err) => Err(err),
                }
            } else {
                Ok(push_front(s, Seq::empty()))
            },
        }
    }
}

/// The syntax tree of a whole sequence of tokens: the block of all its statements.
pub open spec fn tree(ts: Seq<SpecToken>) -> Result<SpecExpression, ParseError> {
    match block(ts, 0) {
        Ok(statements) => Ok(SpecExpression::Block { statements }),
        Err(err) => Err(err),
    }
}

/// `prefix` put in front of the statements of a block; an error stays as it is.
pub open spec fn prepend_block(
    prefix: Seq<SpecExpression>,
    rest: Result<Seq<SpecExpression>, ParseError>,
) -> Result<Seq<SpecExpression>, ParseError> {
    match rest {
        Ok(statements) => Ok(prefix + statements),
        Err(err) => Err(err),
    }
}

/// Parses all the tokens as one block; see `tree`.
pub fn parse_expression_block(tokens: &[Token]) -> (r: Result<Expression, ParseError>)
    ensures
        result_matches(r, tree(view_tokens(tokens@))),
{
    let ghost ts = view_tokens(tokens@);
    let mut iterator = TokenIterator::new(tokens);
    let mut expressions: Vec<Expression> = Vec::new();
    assert(view_expressions(expressions@) =~= Seq::<SpecExpression>::empty());
    assert(block(ts, 0) == prepend_block(view_expressions(expressions@), block(ts, 0))) by {
        match block(ts, 0) {
            Ok(s) => {
                assert(Seq::<SpecExpression>::empty() + s =~= s);
            },
            Err(_) => {},
        }
    }
    while iterator.peek().is_some()
        invariant
            iterator.wf(),
            iterator.tokens() == ts,
            ts == view_tokens(tokens@),
            block(ts, 0) == prepend_block(view_expressions(expressions@), block(ts, iterator.position())),
        decreases ts.len() - iterator.position(),
    {
        let ghost at = iterator.position();
        match parse_expression(iterator) {
            Err(err) => {
                assert(block(ts, at) == Err::<Seq<SpecExpression>, ParseError>(err));
                return Err(err);
            },
            Ok((it, statement)) => {
                let ghost before = expressions@;
                iterator = it;
                match statement {
                    Some(s) => {
                        proof {
                            lemma_view_expressions_push(before, s);
                        }
                        expressions.push(s);
                    },
                    None => {},
                }
                proof {
                    match block(ts, iterator.position()) {
                        Ok(rest) => {
                            assert(view_expressions(before) + push_front(
                                if expressions@.len() > before.len() {
                                    Some(expressions@.last()@)
                                } else {
                                    None
                                },
                                rest,
                            ) =~= view_expressions(expressions@) + rest);
                        },
                        Err(_) => {},
                    }
                }
            },
        }
    }
    let ghost statements = view_expressions(expressions@);
    assert(statements + Seq::<SpecExpression>::empty() =~= statements);
    let e = Expression::Block { statements: expressions };
    assert(e@ == SpecExpression::Block { statements });
    Ok(e)
}

} // verus!
