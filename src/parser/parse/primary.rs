use vstd::prelude::*;

use crate::lexer::tokens::{kinds, kinds_of, view_types, SpecToken, SpecTokenType, Token, TokenType};
use crate::lexer::view_tokens;
use crate::parser::parse::expression::primary_line;
use crate::parser::parse::binary_operator::{binary_operator_of, parse_binary_operator};
use crate::parser::parse::value::{parse_expression_value, value_of};
use crate::parser::structs::{BinaryOperator, Expression, SpecExpression, UnaryOperator};
use crate::parser::types::{
    after_line, lemma_line_end_bounds, line_end, outcome_matches, result_matches, ParseError,
    TokenIterator,
};

verus! {

// ---------------------------------------------------------------------------
// The resolver, stated over token kinds
// ---------------------------------------------------------------------------

/// How a token changes the parenthesis depth.
pub open spec fn delta(kind: SpecTokenType) -> int {
    match kind {
        SpecTokenType::ParenthesisOpen => 1,
        SpecTokenType::ParenthesisClose => -1,
        _ => 0,
    }
}

/// Opening minus closing parentheses in `ts`.
pub open spec fn depth(ts: Seq<SpecTokenType>) -> int
    decreases ts.len(),
{
    if ts.len() == 0 {
        0
    } else {
        depth(ts.drop_last()) + delta(ts.last())
    }
}

/// The first index at or after `from` where `op` stands outside all parentheses.
pub open spec fn first_split(ts: Seq<SpecTokenType>, op: SpecTokenType, from: int) -> Option<int>
    decreases ts.len() - from,
{
    if from < 0 || from >= ts.len() {
        None
    } else if ts[from] == op && depth(ts.take(from)) == 0 {
        Some(from)
    } else {
        first_split(ts, op, from + 1)
    }
}

/// Where `ts` splits: at the first occurrence outside parentheses of the first
/// operator of `ops`, in their order, that occurs there at all.
pub open spec fn split_by(ts: Seq<SpecTokenType>, ops: Seq<SpecTokenType>) -> Option<int>
    decreases ops.len(),
{
    if ops.len() == 0 {
        None
    } else {
        match first_split(ts, ops[0], 0) {
            Some(i) => Some(i),
            None => split_by(ts, ops.drop_first()),
        }
    }
}

/// The operators of low precedence, in the order they are tried.
pub open spec fn low_level_operators() -> Seq<SpecTokenType> {
    seq![SpecTokenType::Add, SpecTokenType::Subtract]
}

/// The operators of high precedence, in the order they are tried.
pub open spec fn high_level_operators() -> Seq<SpecTokenType> {
    seq![SpecTokenType::Multiply, SpecTokenType::Divide]
}

/// Whether `ts` is one parenthesized group: it opens with its first token, and
/// the parenthesis that closes that one is its last token.
pub open spec fn wrapped(ts: Seq<SpecTokenType>) -> bool {
    &&& ts.len() >= 2
    &&& ts[0] is ParenthesisOpen
    &&& ts.last() is ParenthesisClose
    &&& depth(ts.drop_last()) == 1
    &&& forall|i: int| 1 <= i < ts.len() ==> depth(#[trigger] ts.take(i)) >= 1
}

/// A single token as an expression: a value or a name.
pub open spec fn atom(kind: SpecTokenType) -> Result<SpecExpression, ParseError> {
    if kind is Identifier || kind is String {
        Ok(value_of(kind))
    } else {
        Err(ParseError::UnexpectedExpression)
    }
}

/// Two tokens as an expression: empty parentheses, a postfix increment or
/// decrement of a name, or the negation of a name.
pub open spec fn pair(a: SpecTokenType, b: SpecTokenType) -> Result<SpecExpression, ParseError> {
    match (a, b) {
        (SpecTokenType::ParenthesisOpen, SpecTokenType::ParenthesisClose) => Ok(SpecExpression::Nope),
        (SpecTokenType::Identifier(name), SpecTokenType::Increment) => Ok(SpecExpression::Unary {
            operator: UnaryOperator::Increment,
            right: Box::new(SpecExpression::Identifier(name)),
        }),
        (SpecTokenType::Identifier(name), SpecTokenType::Decrement) => Ok(SpecExpression::Unary {
            operator: UnaryOperator::Decrement,
            right: Box::new(SpecExpression::Identifier(name)),
        }),
        (SpecTokenType::NotEqual, SpecTokenType::Identifier(name)) => Ok(SpecExpression::Unary {
            operator: UnaryOperator::Negate,
            right: Box::new(SpecExpression::Identifier(name)),
        }),
        _ => Err(ParseError::UnexpectedExpression),
    }
}

/// The binary expression of two parsed operands; the first error wins.
pub open spec fn combine(
    left: Result<SpecExpression, ParseError>,
    operator: BinaryOperator,
    right: Result<SpecExpression, ParseError>,
) -> Result<SpecExpression, ParseError> {
    match (left, right) {
        (Ok(l), Ok(r)) => Ok(SpecExpression::Binary { left: Box::new(l), operator, right: Box::new(r) }),
        (Err(e), _) => Err(e),
        (_, Err(e)) => Err(e),
    }
}

/// The expression that the tokens of one line form.
pub open spec fn primary(ts: Seq<SpecTokenType>) -> Result<SpecExpression, ParseError>
    decreases ts.len(),
    via primary_decreases
{
    if ts.len() == 0 {
        Ok(SpecExpression::Nope)
    } else if ts.len() == 1 {
        atom(ts[0])
    } else if ts.len() == 2 {
        pair(ts[0], ts[1])
    } else if ts.len() == 3 {
        if ts[0] is ParenthesisOpen && ts[2] is ParenthesisClose {
            primary(ts.subrange(1, 2))
        } else if ts[0] is Identifier && binary_operator_of(ts[1]) is Some && ts[2] is Identifier {
            Ok(
                SpecExpression::Binary {
                    left: Box::new(value_of(ts[0])),
                    operator: binary_operator_of(ts[1])->0,
                    right: Box::new(value_of(ts[2])),
                },
            )
        } else {
            Err(ParseError::UnexpectedExpression)
        }
    } else {
        match split_by(ts, low_level_operators()) {
            Some(i) => combine(primary(ts.take(i)), binary_operator_of(ts[i])->0, primary(ts.skip(i + 1))),
            None => match split_by(ts, high_level_operators()) {
                Some(i) => combine(
                    primary(ts.take(i)),
                    binary_operator_of(ts[i])->0,
                    primary(ts.skip(i + 1)),
                ),
                None => if wrapped(ts) {
                    primary(ts.subrange(1, ts.len() - 1))
                } else if ts[0] is NotEqual && wrapped(ts.skip(1)) {
                    match primary(ts.subrange(2, ts.len() - 1)) {
                        Ok(e) => Ok(SpecExpression::Unary { operator: UnaryOperator::Negate, right: Box::new(e) }),
                        Err(e) => Err(e),
                    }
                } else {
                    Err(ParseError::UnexpectedExpression)
                },
            },
        }
    }
}

#[via_fn]
proof fn primary_decreases(ts: Seq<SpecTokenType>) {
    lemma_split_by_bounds(ts, low_level_operators());
    lemma_split_by_bounds(ts, high_level_operators());
}

pub proof fn lemma_first_split_bounds(ts: Seq<SpecTokenType>, op: SpecTokenType, from: int)
    ensures
        first_split(ts, op, from) matches Some(i) ==> from <= i < ts.len() && 0 <= i && ts[i] == op
            && depth(ts.take(i)) == 0,
    decreases ts.len() - from,
{
    if !(from < 0 || from >= ts.len()) && !(ts[from] == op && depth(ts.take(from)) == 0) {
        lemma_first_split_bounds(ts, op, from + 1);
    }
}

pub proof fn lemma_split_by_bounds(ts: Seq<SpecTokenType>, ops: Seq<SpecTokenType>)
    ensures
        split_by(ts, ops) matches Some(i) ==> 0 <= i < ts.len() && ops.contains(ts[i]),
    decreases ops.len(),
{
    if ops.len() > 0 {
        lemma_first_split_bounds(ts, ops[0], 0);
        lemma_split_by_bounds(ts, ops.drop_first());
        if let Some(i) = split_by(ts, ops) {
            if first_split(ts, ops[0], 0) is None {
                let k = choose|k: int| 0 <= k < ops.drop_first().len() && ops.drop_first()[k] == ts[i];
                assert(ops[k + 1] == ts[i]);
            } else {
                assert(ops[0] == ts[i]);
            }
        }
    }
}

/// The depth after one more token.
proof fn lemma_depth_step(ts: Seq<SpecTokenType>, i: int)
    requires
        0 <= i < ts.len(),
    ensures
        depth(ts.take(i + 1)) == depth(ts.take(i)) + delta(ts[i]),
{
    assert(ts.take(i + 1).drop_last() =~= ts.take(i));
}

// ---------------------------------------------------------------------------
// The resolver
// ---------------------------------------------------------------------------

/// The change of depth that a token makes, as counts of opening and closing parentheses.
fn parenthesis_counts(kind: &TokenType) -> (r: (usize, usize))
    ensures
        r.0 <= 1 && r.1 <= 1,
        r.0 as int - r.1 as int == delta(kind@),
{
    match kind {
        TokenType::ParenthesisOpen => (1, 0),
        TokenType::ParenthesisClose => (0, 1),
        _ => (0, 0),
    }
}

fn is_binary_operator(kind: &TokenType) -> (r: bool)
    ensures
        r == binary_operator_of(kind@) is Some,
{
    match kind {
        TokenType::Add | TokenType::Subtract | TokenType::Multiply | TokenType::Divide
        | TokenType::Modulo | TokenType::Equal | TokenType::NotEqual | TokenType::And
        | TokenType::Or | TokenType::Greater | TokenType::Less | TokenType::GreaterEqual
        | TokenType::LessEqual => true,
        _ => false,
    }
}

/// The unary operator applied to a name.
fn unary_of_name(operator: UnaryOperator, name: &String) -> (r: Expression)
    ensures
        r@ == (SpecExpression::Unary {
            operator,
            right: Box::new(SpecExpression::Identifier(name@)),
        }),
{
    let right = Expression::Identifier(name.clone());
    assert(right@ == SpecExpression::Identifier(name@));
    Expression::Unary { operator, right: Box::new(right) }
}

/// Whether the tokens form one parenthesized group; see `wrapped`.
fn is_wrapped(tokens: &[Token]) -> (r: bool)
    ensures
        r == wrapped(kinds_of(tokens@)),
{
    let ghost ts = kinds_of(tokens@);
    let n = tokens.len();
    if n < 2 {
        return false;
    }
    let opens_first = match tokens[0].token_type {
        TokenType::ParenthesisOpen => true,
        _ => false,
    };
    let closes_last = match tokens[n - 1].token_type {
        TokenType::ParenthesisClose => true,
        _ => false,
    };
    if !opens_first || !closes_last {
        return false;
    }
    proof {
        lemma_depth_step(ts, 0);
        assert(ts.take(0) =~= Seq::<SpecTokenType>::empty());
    }
    let mut opens: usize = 1;
    let mut closes: usize = 0;
    let mut i: usize = 1;
    while i < n
        invariant
            ts == kinds_of(tokens@),
            n == ts.len(),
            1 <= i <= n,
            opens <= i && closes <= i,
            opens as int - closes as int == depth(ts.take(i as int)),
            forall|j: int| 1 <= j < i ==> depth(#[trigger] ts.take(j)) >= 1,
        decreases n - i,
    {
        if opens <= closes {
            return false;
        }
        let (o, c) = parenthesis_counts(&tokens[i].token_type);
        proof {
            lemma_depth_step(ts, i as int);
        }
        opens = opens + o;
        closes = closes + c;
        i = i + 1;
    }
    proof {
        assert(ts.take(n as int) =~= ts);
        assert(ts.drop_last() =~= ts.take(n - 1));
        lemma_depth_step(ts, n - 1);
    }
    opens == closes
}

/// Splits the tokens at the first of `operators`, in their order, that stands
/// outside all parentheses, and resolves both sides; `None` when none does.
pub fn parse_primary_split_by_operators(tokens: &[Token], operators: &[TokenType]) -> (r: Result<
    Option<Expression>,
    ParseError,
>)
    requires
        forall|k: int| 0 <= k < operators@.len() ==> binary_operator_of(#[trigger] operators@[k]@) is Some,
    ensures
        match split_by(kinds_of(tokens@), view_types(operators@)) {
            None => r == Ok::<Option<Expression>, ParseError>(None),
            Some(i) => match combine(
                primary(kinds_of(tokens@).take(i)),
                binary_operator_of(kinds_of(tokens@)[i])->0,
                primary(kinds_of(tokens@).skip(i + 1)),
            ) {
                Ok(e) => r matches Ok(Some(x)) && x@ == e,
                Err(err) => r == Err::<Option<Expression>, ParseError>(err),
            },
        },
    decreases tokens@.len(), 0nat,
{
    let ghost ts = kinds_of(tokens@);
    let ghost ops = view_types(operators@);
    let mut k: usize = 0;
    assert(ops.skip(0) =~= ops);
    while k < operators.len()
        invariant
            ts == kinds_of(tokens@),
            ops == view_types(operators@),
            k <= operators@.len(),
            forall|j: int| 0 <= j < operators@.len() ==> binary_operator_of(#[trigger] operators@[j]@) is Some,
            split_by(ts, ops) == split_by(ts, ops.skip(k as int)),
        decreases operators@.len() - k,
    {
        let op = &operators[k];
        assert(op@ == ops[k as int]);
        assert(ops.skip(k as int)[0] == op@);
        assert(binary_operator_of(op@) is Some);
        let mut opens: usize = 0;
        let mut closes: usize = 0;
        let mut i: usize = 0;
        proof {
            assert(ts.take(0) =~= Seq::<SpecTokenType>::empty());
        }
        while i < tokens.len()
            invariant
                ts == kinds_of(tokens@),
                i <= ts.len(),
                opens <= i && closes <= i,
                opens as int - closes as int == depth(ts.take(i as int)),
                first_split(ts, op@, 0) == first_split(ts, op@, i as int),
                ops == view_types(operators@),
                k < operators@.len(),
                op@ == ops[k as int],
                ops.skip(k as int)[0] == op@,
                binary_operator_of(op@) is Some,
                split_by(ts, ops) == split_by(ts, ops.skip(k as int)),
            decreases ts.len() - i,
        {
            if tokens[i].token_type == *op && opens == closes {
                assert(ts[i as int] == tokens@[i as int].token_type@);
                assert(split_by(ts, ops) == Some(i as int));
                let left = int_parse_primary_expression(vstd::slice::slice_subrange(tokens, 0, i));
                let operator = parse_binary_operator(&tokens[i]);
                let right = int_parse_primary_expression(
                    vstd::slice::slice_subrange(tokens, i + 1, tokens.len()),
                );
                assert(kinds_of(tokens@.subrange(0, i as int)) =~= ts.take(i as int));
                assert(kinds_of(tokens@.subrange(i + 1, tokens@.len() as int)) =~= ts.skip(i + 1));
                return match (left, right) {
                    (Ok(l), Ok(r)) => Ok(
                        Some(Expression::Binary { left: Box::new(l), operator, right: Box::new(r) }),
                    ),
                    (Err(e), _) => Err(e),
                    (_, Err(e)) => Err(e),
                };
            }
            let (o, c) = parenthesis_counts(&tokens[i].token_type);
            proof {
                lemma_depth_step(ts, i as int);
            }
            opens = opens + o;
            closes = closes + c;
            i = i + 1;
        }
        proof {
            assert(ops.skip(k as int)[0] == op@);
            assert(ops.skip(k as int).drop_first() =~= ops.skip(k + 1));
        }
        k = k + 1;
    }
    proof {
        assert(ops.skip(k as int).len() == 0);
    }
    Ok(None)
}

/// Resolves tokens that are one parenthesized group, or the negation of one;
/// `None` when they are neither.
pub fn parse_primary_expression_remove_parenthesis(tokens: &[Token]) -> (r: Result<
    Option<Expression>,
    ParseError,
>)
    ensures
        ({
            let ts = kinds_of(tokens@);
            if wrapped(ts) {
                match primary(ts.subrange(1, ts.len() - 1)) {
                    Ok(e) => r matches Ok(Some(x)) && x@ == e,
                    Err(err) => r == Err::<Option<Expression>, ParseError>(err),
                }
            } else if ts.len() > 0 && ts[0] is NotEqual && wrapped(ts.skip(1)) {
                match primary(ts.subrange(2, ts.len() - 1)) {
                    Ok(e) => r matches Ok(Some(x)) && x@ == SpecExpression::Unary {
                        operator: UnaryOperator::Negate,
                        right: Box::new(e),
                    },
                    Err(err) => r == Err::<Option<Expression>, ParseError>(err),
                }
            } else {
                r == Ok::<Option<Expression>, ParseError>(None)
            }
        }),
    decreases tokens@.len(), 0nat,
{
    let ghost ts = kinds_of(tokens@);
    let n = tokens.len();
    if is_wrapped(tokens) {
        let inner = vstd::slice::slice_subrange(tokens, 1, n - 1);
        assert(kinds_of(inner@) =~= ts.subrange(1, n - 1));
        return match int_parse_primary_expression(inner) {
            Ok(e) => Ok(Some(e)),
            Err(e) => Err(e),
        };
    }
    if n == 0 {
        return Ok(None);
    }
    let negates = match tokens[0].token_type {
        TokenType::NotEqual => true,
        _ => false,
    };
    let rest = vstd::slice::slice_subrange(tokens, 1, n);
    assert(kinds_of(rest@) =~= ts.skip(1));
    if negates && is_wrapped(rest) {
        let inner = vstd::slice::slice_subrange(tokens, 2, n - 1);
        assert(kinds_of(inner@) =~= ts.subrange(2, n - 1));
        return match int_parse_primary_expression(inner) {
            Ok(e) => Ok(Some(Expression::Unary { operator: UnaryOperator::Negate, right: Box::new(e) })),
            Err(e) => Err(e),
        };
    }
    Ok(None)
}

/// The expression that the tokens of one line form; see `primary`.
pub fn int_parse_primary_expression(tokens: &[Token]) -> (r: Result<Expression, ParseError>)
    ensures
        result_matches(r, primary(kinds_of(tokens@))),
    decreases tokens@.len(), 1nat,
{
    let ghost ts = kinds_of(tokens@);
    let n = tokens.len();
    assert(forall|j: int| 0 <= j < n ==> ts[j] == (#[trigger] tokens@[j]).token_type@);
    if n == 0 {
        Ok(Expression::Nope)
    } else if n == 1 {
        match tokens[0].token_type {
            TokenType::Identifier(_) | TokenType::String(_) => Ok(parse_expression_value(&tokens[0])),
            _ => Err(ParseError::UnexpectedExpression),
        }
    } else if n == 2 {
        let r = match (&tokens[0].token_type, &tokens[1].token_type) {
            (TokenType::ParenthesisOpen, TokenType::ParenthesisClose) => Ok(Expression::Nope),
            (TokenType::Identifier(name), TokenType::Increment) => Ok(
                unary_of_name(UnaryOperator::Increment, name),
            ),
            (TokenType::Identifier(name), TokenType::Decrement) => Ok(
                unary_of_name(UnaryOperator::Decrement, name),
            ),
            (TokenType::NotEqual, TokenType::Identifier(name)) => Ok(
                unary_of_name(UnaryOperator::Negate, name),
            ),
            _ => Err(ParseError::UnexpectedExpression),
        };
        assert(result_matches(r, pair(ts[0], ts[1])));
        r
    } else if n == 3 {
        let grouped = match (&tokens[0].token_type, &tokens[2].token_type) {
            (TokenType::ParenthesisOpen, TokenType::ParenthesisClose) => true,
            _ => false,
        };
        let names = match (&tokens[0].token_type, &tokens[2].token_type) {
            (TokenType::Identifier(_), TokenType::Identifier(_)) => true,
            _ => false,
        };
        if grouped {
            let inner = vstd::slice::slice_subrange(tokens, 1, 2);
            assert(kinds_of(inner@) =~= ts.subrange(1, 2));
            int_parse_primary_expression(inner)
        } else if names && is_binary_operator(&tokens[1].token_type) {
            let left = parse_expression_value(&tokens[0]);
            let operator = parse_binary_operator(&tokens[1]);
            let right = parse_expression_value(&tokens[2]);
            Ok(Expression::Binary { left: Box::new(left), operator, right: Box::new(right) })
        } else {
            Err(ParseError::UnexpectedExpression)
        }
    } else {
        let low = vec![TokenType::Add, TokenType::Subtract];
        assert(view_types(low@) =~= low_level_operators());
        match parse_primary_split_by_operators(tokens, low.as_slice()) {
            Ok(Some(e)) => return Ok(e),
            Err(e) => return Err(e),
            Ok(None) => {},
        }
        let high = vec![TokenType::Multiply, TokenType::Divide];
        assert(view_types(high@) =~= high_level_operators());
        match parse_primary_split_by_operators(tokens, high.as_slice()) {
            Ok(Some(e)) => return Ok(e),
            Err(e) => return Err(e),
            Ok(None) => {},
        }
        match parse_primary_expression_remove_parenthesis(tokens) {
            Ok(Some(e)) => Ok(e),
            Ok(None) => Err(ParseError::UnexpectedExpression),
            Err(e) => Err(e),
        }
    }
}

/// Resolves the rest of the current line, and moves the cursor past it; see
/// `primary_line`.
pub fn parse_primary_expression<'a>(iterator: TokenIterator<'a>) -> (r: Result<
    (TokenIterator<'a>, Expression),
    ParseError,
>)
    requires
        iterator.wf(),
    ensures
        outcome_matches(r, iterator, primary_line(iterator.tokens(), iterator.position())),
        r matches Ok((it, _)) ==> (iterator.position() < iterator.tokens().len()
            && !(iterator.tokens()[iterator.position()].kind is EndLine) ==> iterator.position()
            < it.position() <= iterator.tokens().len()),
{
    let ghost ts = iterator.tokens();
    let ghost p = iterator.position();
    let mut iterator = iterator;
    let line = iterator.take_line();
    proof {
        lemma_line_end_bounds(ts, p);
        assert(kinds_of(line@) =~= kinds(ts.subrange(p, line_end(ts, p))));
    }
    match int_parse_primary_expression(line) {
        Ok(e) => Ok((iterator, e)),
        Err(err) => Err(err),
    }
}

} // verus!
