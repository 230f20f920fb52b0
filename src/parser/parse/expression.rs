use vstd::prelude::*;

use crate::lexer::chars_of;
use crate::lexer::tokens::{kinds, SpecToken, SpecTokenType, TokenType};
use crate::parser::parse::assigment::parse_assigment_expression;
use crate::parser::parse::function::parse_function_expression;
use crate::parser::parse::primary::{parse_primary_expression, primary};
use crate::parser::structs::{Expression, SpecExpression};
use crate::parser::types::{after_line, expect_at, line_end, unexpected, ParseError, TokenIterator};

verus! {

pub open spec fn keyword_var() -> Seq<char> {
    seq!['v', 'a', 'r']
}

pub open spec fn keyword_func() -> Seq<char> {
    seq!['f', 'u', 'n', 'c']
}

/// The expression of the line that starts at `p`, and the position after the line.
pub open spec fn primary_line(ts: Seq<SpecToken>, p: int) -> Result<(SpecExpression, int), ParseError> {
    match primary(kinds(ts.subrange(p, line_end(ts, p)))) {
        Ok(e) => Ok((e, after_line(ts, p))),
        Err(err) => Err(err),
    }
}

/// An assignment from `p`: a name, `=`, and the expression of the rest of the line.
pub open spec fn assignment(ts: Seq<SpecToken>, p: int) -> Result<(SpecExpression, int), ParseError> {
    if p < 0 || p >= ts.len() {
        Err(ParseError::UnexpectedEnd)
    } else {
        match ts[p].kind {
            SpecTokenType::Identifier(name) => match expect_at(ts, p + 1, SpecTokenType::Equal) {
                Err(err) => Err(err),
                Ok(()) => match primary_line(ts, p + 2) {
                    Ok((value, q)) => Ok((SpecExpression::Assignment { name, value: Box::new(value) }, q)),
                    Err(err) => Err(err),
                },
            },
            _ => Err(unexpected(ts[p])),
        }
    }
}

/// The parameter list after `(` at `p`: either `)`, or one name and the token
/// after it, which is taken as the closing parenthesis without a check.
pub open spec fn parameters_at(ts: Seq<SpecToken>, p: int) -> Result<(Seq<Seq<char>>, int), ParseError> {
    if p < 0 || p >= ts.len() {
        Err(ParseError::UnexpectedEnd)
    } else {
        match ts[p].kind {
            SpecTokenType::ParenthesisClose => Ok((Seq::empty(), p + 1)),
            SpecTokenType::Identifier(name) => if p + 1 >= ts.len() {
                Err(ParseError::UnexpectedEnd)
            } else {
                Ok((seq![name], p + 2))
            },
            _ => Err(unexpected(ts[p])),
        }
    }
}

/// The header of a function definition from `p`: `func`, its name, `(`, the
/// parameter list and a line end. Gives the name, the parameters and the
/// position after the header.
pub open spec fn function_header(ts: Seq<SpecToken>, p: int) -> Result<
    (Seq<char>, Seq<Seq<char>>, int),
    ParseError,
> {
    match expect_at(ts, p, SpecTokenType::Identifier(keyword_func())) {
        Err(err) => Err(err),
        Ok(()) => if p + 1 >= ts.len() {
            Err(ParseError::UnexpectedEnd)
        } else {
            match ts[p + 1].kind {
                SpecTokenType::Identifier(name) => match expect_at(ts, p + 2, SpecTokenType::ParenthesisOpen) {
                    Err(err) => Err(err),
                    Ok(()) => match parameters_at(ts, p + 3) {
                        Err(err) => Err(err),
                        Ok((parameters, q)) => match expect_at(ts, q, SpecTokenType::EndLine) {
                            Err(err) => Err(err),
                            Ok(()) => Ok((name, parameters, q + 1)),
                        },
                    },
                },
                _ => Err(unexpected(ts[p + 1])),
            }
        },
    }
}

/// `rest` with `s` in front of it, if there is an `s`.
pub open spec fn push_front(s: Option<SpecExpression>, rest: Seq<SpecExpression>) -> Seq<SpecExpression> {
    match s {
        Some(e) => seq![e] + rest,
        None => rest,
    }
}

/// The statement that starts at `p`, chosen by its first token, and the
/// position after it; nothing once the tokens are exhausted.
pub open spec fn statement(ts: Seq<SpecToken>, p: int) -> Result<(Option<SpecExpression>, int), ParseError>
    decreases ts.len() - p, 2int,
{
    if p < 0 || p >= ts.len() {
        Ok((None, p))
    } else {
        let found = match ts[p].kind {
            SpecTokenType::NotEqual | SpecTokenType::ParenthesisOpen => primary_line(ts, p),
            SpecTokenType::Identifier(word) => if word == keyword_var() {
                assignment(ts, p)
            } else if word == keyword_func() {
                function_definition(ts, p)
            } else {
                primary_line(ts, p)
            },
            SpecTokenType::If => Err(
                ParseError::ConditionNotSupported {
                    line: ts[p].line as usize,
                    column: ts[p].column as usize,
                },
            ),
            _ => Err(unexpected(ts[p])),
        };
        match found {
            Ok((e, q)) => Ok((Some(e), q)),
            Err(err) => Err(err),
        }
    }
}

/// The function with this name and these parameters whose body is the
/// outcome `body`.
pub open spec fn function_from_body(
    name: Seq<char>,
    parameters: Seq<Seq<char>>,
    body: Result<(Seq<SpecExpression>, int), ParseError>,
) -> Result<(SpecExpression, int), ParseError> {
    match body {
        Ok((statements, r)) => Ok(
            (
                SpecExpression::Function {
                    name,
                    parameters,
                    body: Box::new(SpecExpression::Block { statements }),
                },
                r,
            ),
        ),
        Err(err) => Err(err),
    }
}

/// A function definition from `p`: the header, then the body, whose
/// indentation is that of the first line after the header.
pub open spec fn function_definition(ts: Seq<SpecToken>, p: int) -> Result<(SpecExpression, int), ParseError>
    decreases ts.len() - p, 1int,
{
    match function_header(ts, p) {
        Err(err) => Err(err),
        Ok((name, parameters, q)) => if q < 0 || q >= ts.len() {
            Err(ParseError::UnexpectedEnd)
        } else {
            match ts[q].kind {
                SpecTokenType::NewLineIndent(width) => function_from_body(
                    name,
                    parameters,
                    function_body(ts, q, width),
                ),
                _ => Err(unexpected(ts[q])),
            }
        },
    }
}

/// The statements of a function body from `q`: one statement after each
/// indentation of exactly `width`; the body ends before any other token or
/// at the end of the tokens.
pub open spec fn function_body(ts: Seq<SpecToken>, q: int, width: u32) -> Result<
    (Seq<SpecExpression>, int),
    ParseError,
>
    decreases ts.len() - q, 0int,
{
    if q < 0 || q >= ts.len() || ts[q].kind != SpecTokenType::NewLineIndent(width) {
        Ok((Seq::empty(), q))
    } else {
        match statement(ts, q + 1) {
            Err(err) => Err(err),
            Ok((s, r)) => if q < r <= ts.len() {
                match function_body(ts, r, width) {
                    Ok((rest, e)) => Ok((push_front(s, rest), e)),
                    Err(err) => Err(err),
                }
            } else {
                Ok((push_front(s, Seq::empty()), r))
            },
        }
    }
}

/// Whether an outcome of a statement parse is the mathematical outcome `s`.
pub open spec fn statement_matches<'a>(
    r: Result<(TokenIterator<'a>, Option<Expression>), ParseError>,
    from: TokenIterator<'a>,
    s: Result<(Option<SpecExpression>, int), ParseError>,
) -> bool {
    match s {
        Ok((e, q)) => r matches Ok((it, x)) && it.moved(&from, q) && match e {
            Some(v) => x matches Some(y) && y@ == v,
            None => x is None,
        },
        Err(err) => r matches Err(e2) && e2 == err,
    }
}

/// Whether `s` is the text `word`.
pub fn text_is(s: &String, word: &Vec<char>) -> (r: bool)
    ensures
        r == (s@ == word@),
{
    let chars = chars_of(s.as_str());
    if chars.len() != word.len() {
        return false;
    }
    let mut i: usize = 0;
    while i < word.len()
        invariant
            chars@ == s@,
            chars@.len() == word@.len(),
            i <= word@.len(),
            forall|k: int| 0 <= k < i ==> chars@[k] == word@[k],
        decreases word@.len() - i,
    {
        if chars[i] != word[i] {
            return false;
        }
        i = i + 1;
    }
    assert(chars@ =~= word@);
    true
}

/// Parses the statement at the cursor; see `statement`.
pub fn parse_expression<'a>(iterator: TokenIterator<'a>) -> (r: Result<
    (TokenIterator<'a>, Option<Expression>),
    ParseError,
>)
    requires
        iterator.wf(),
    ensures
        statement_matches(r, iterator, statement(iterator.tokens(), iterator.position())),
        r matches Ok((it, _)) ==> (iterator.position() < iterator.tokens().len() ==> iterator.position()
            < it.position() <= iterator.tokens().len()),
    decreases iterator.tokens().len() - iterator.position(), 2int,
{
    let ghost ts = iterator.tokens();
    let ghost p = iterator.position();
    let token = match iterator.peek() {
        Some(token) => token,
        None => return Ok((iterator, None)),
    };
    let found = match &token.token_type {
        TokenType::NotEqual | TokenType::ParenthesisOpen => parse_primary_expression(iterator),
        TokenType::Identifier(name) => {
            let var = vec!['v', 'a', 'r'];
            let func = vec!['f', 'u', 'n', 'c'];
            assert(var@ =~= keyword_var());
            assert(func@ =~= keyword_func());
            if text_is(name, &var) {
                parse_assigment_expression(iterator)
            } else if text_is(name, &func) {
                parse_function_expression(iterator)
            } else {
                parse_primary_expression(iterator)
            }
        },
        TokenType::If => Err(ParseError::ConditionNotSupported { line: token.line, column: token.column }),
        _ => Err(ParseError::UnexpectedToken { line: token.line, column: token.column }),
    };
    match found {
        Ok((it, e)) => Ok((it, Some(e))),
        Err(err) => Err(err),
    }
}

} // verus!
