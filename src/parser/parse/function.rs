use vstd::prelude::*;

use crate::lexer::tokens::{SpecTokenType, TokenType};
use crate::parser::parse::expression::{
    function_body, function_definition, function_from_body, function_header, keyword_func,
    parameters_at, parse_expression, push_front,
};
use crate::parser::structs::{view_expressions, view_strings, Expression, SpecExpression};
use crate::parser::types::{outcome_matches, ParseError, TokenIterator};

verus! {

/// `prefix` put in front of the statements of a body; an error stays as it is.
pub open spec fn prepend_body(
    prefix: Seq<SpecExpression>,
    rest: Result<(Seq<SpecExpression>, int), ParseError>,
) -> Result<(Seq<SpecExpression>, int), ParseError> {
    match rest {
        Ok((statements, e)) => Ok((prefix + statements, e)),
        Err(err) => Err(err),
    }
}

/// Appending to a sequence of expressions appends to its view.
pub proof fn lemma_view_expressions_push(s: Seq<Expression>, e: Expression)
    ensures
        view_expressions(s.push(e)) == view_expressions(s).push(e@),
{
    assert(s.push(e).drop_last() =~= s);
}

/// Parses a function definition at the cursor; see `function_definition`.
pub fn parse_function_expression<'a>(iterator: TokenIterator<'a>) -> (r: Result<
    (TokenIterator<'a>, Expression),
    ParseError,
>)
    requires
        iterator.wf(),
    ensures
        outcome_matches(r, iterator, function_definition(iterator.tokens(), iterator.position())),
        r matches Ok((it, _)) ==> iterator.position() < it.position() <= iterator.tokens().len(),
    decreases iterator.tokens().len() - iterator.position(), 1int,
{
    let ghost ts = iterator.tokens();
    let ghost p = iterator.position();
    let mut cursor = iterator;
    let keyword = String::from_str("func");
    proof {
        reveal_strlit("func");
        assert(keyword@ =~= keyword_func());
    }
    match cursor.next_expected(TokenType::Identifier(keyword)) {
        Ok(()) => {},
        Err(err) => return Err(err),
    }
    let name_token = match cursor.next_some() {
        Ok(token) => token,
        Err(err) => return Err(err),
    };
    let name = match name_token.token_type {
        TokenType::Identifier(name) => name,
        _ => return Err(ParseError::UnexpectedToken { line: name_token.line, column: name_token.column }),
    };
    match cursor.next_expected(TokenType::ParenthesisOpen) {
        Ok(()) => {},
        Err(err) => return Err(err),
    }
    assert(ts[p + 1].kind == SpecTokenType::Identifier(name@));
    let mut parameters: Vec<String> = Vec::new();
    let first = match cursor.peek_some() {
        Ok(token) => token,
        Err(err) => return Err(err),
    };
    match first.token_type {
        TokenType::ParenthesisClose => {
            cursor.next();
            assert(view_strings(parameters@) =~= Seq::<Seq<char>>::empty());
        },
        TokenType::Identifier(parameter) => {
            let ghost parameter_name = parameter@;
            parameters.push(parameter);
            cursor.next();
            // the closing parenthesis, taken without a check
            match cursor.next_some() {
                Ok(_) => {},
                Err(err) => return Err(err),
            }
            assert(view_strings(parameters@) =~= seq![parameter_name]);
        },
        _ => return Err(ParseError::UnexpectedToken { line: first.line, column: first.column }),
    }
    assert(parameters_at(ts, p + 3) == Ok::<(Seq<Seq<char>>, int), ParseError>(
        (view_strings(parameters@), cursor.position()),
    ));
    match cursor.next_expected(TokenType::EndLine) {
        Ok(()) => {},
        Err(err) => return Err(err),
    }
    let indent_token = match cursor.peek_some() {
        Ok(token) => token,
        Err(err) => return Err(err),
    };
    let indent = match indent_token.token_type {
        TokenType::NewLineIndent(width) => width,
        _ => return Err(ParseError::UnexpectedToken { line: indent_token.line, column: indent_token.column }),
    };
    let ghost q = cursor.position();
    let ghost parameter_names = view_strings(parameters@);
    assert(function_header(ts, p) == Ok::<(Seq<char>, Seq<Seq<char>>, int), ParseError>(
        (name@, parameter_names, q),
    ));
    assert(function_definition(ts, p) == function_from_body(name@, parameter_names, function_body(ts, q, indent)));
    let mut statements: Vec<Expression> = Vec::new();
    assert(view_expressions(statements@) =~= Seq::<SpecExpression>::empty());
    assert(function_body(ts, q, indent) == prepend_body(
        view_expressions(statements@),
        function_body(ts, cursor.position(), indent),
    )) by {
        match function_body(ts, q, indent) {
            Ok((s, e)) => {
                assert(Seq::<SpecExpression>::empty() + s =~= s);
            },
            Err(_) => {},
        }
    }
    loop
        invariant
            cursor.moved(&iterator, cursor.position()),
            p == iterator.position(),
            p < q <= cursor.position() <= ts.len(),
            function_definition(ts, p) == function_from_body(name@, parameter_names, function_body(ts, q, indent)),
            parameter_names == view_strings(parameters@),
            ts == iterator.tokens(),
            function_body(ts, q, indent) == prepend_body(
                view_expressions(statements@),
                function_body(ts, cursor.position(), indent),
            ),
        ensures
            cursor.moved(&iterator, cursor.position()),
            p < cursor.position() <= ts.len(),
            function_definition(ts, p) == function_from_body(name@, parameter_names, function_body(ts, q, indent)),
            function_body(ts, q, indent) == prepend_body(
                view_expressions(statements@),
                Ok((Seq::empty(), cursor.position())),
            ),
        decreases ts.len() - cursor.position(),
    {
        let at_indent = match cursor.peek() {
            Some(token) => match token.token_type {
                TokenType::NewLineIndent(width) => width == indent,
                _ => false,
            },
            None => false,
        };
        if !at_indent {
            assert(function_body(ts, cursor.position(), indent) == Ok::<(Seq<SpecExpression>, int), ParseError>(
                (Seq::empty(), cursor.position()),
            ));
            break;
        }
        let ghost at = cursor.position();
        cursor.next();
        match parse_expression(cursor) {
            Err(err) => return Err(err),
            Ok((it, statement)) => {
                let ghost before = statements@;
                cursor = it;
                match statement {
                    Some(s) => {
                        proof {
                            lemma_view_expressions_push(before, s);
                        }
                        statements.push(s);
                    },
                    None => {},
                }
                proof {
                    match function_body(ts, cursor.position(), indent) {
                        Ok((rest, e)) => {
                            assert(view_expressions(before) + push_front(
                                if statements@.len() > before.len() { Some(statements@.last()@) } else { None },
                                rest,
                            ) =~= view_expressions(statements@) + rest);
                        },
                        Err(_) => {},
                    }
                }
            },
        }
    }
    let ghost body = view_expressions(statements@);
    assert(body + Seq::<SpecExpression>::empty() =~= body);
    let f = function_of(name, parameters, statements);
    Ok((cursor, f))
}

/// The function with this name, these parameters and these statements as its body.
fn function_of(name: String, parameters: Vec<String>, statements: Vec<Expression>) -> (r: Expression)
    ensures
        r@ == (SpecExpression::Function {
            name: name@,
            parameters: view_strings(parameters@),
            body: Box::new(SpecExpression::Block { statements: view_expressions(statements@) }),
        }),
{
    let body = Expression::Block { statements };
    assert(body@ == SpecExpression::Block { statements: view_expressions(statements@) });
    Expression::Function { name, parameters, body: Box::new(body) }
}

} // verus!
