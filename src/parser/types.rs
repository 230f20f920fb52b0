use vstd::prelude::*;

use crate::lexer::tokens::{SpecToken, SpecTokenType, Token, TokenType};
use crate::lexer::view_tokens;
use crate::parser::structs::{Expression, SpecExpression};

verus! {

/// Why parsing stopped. Every error ends the whole pass.
#[derive(Debug, PartialEq, Eq, Structural, Clone, Copy)]
pub enum ParseError {
    /// The tokens ran out where one was required.
    UnexpectedEnd,
    /// A token other than the one required, at this position.
    UnexpectedToken { line: usize, column: usize },
    /// The tokens of a line form no expression.
    UnexpectedExpression,
    /// A conditional statement starts here; the grammar does not yet define one.
    ConditionNotSupported { line: usize, column: usize },
}

/// The error that names the token `t` as unexpected.
pub open spec fn unexpected(t: SpecToken) -> ParseError {
    ParseError::UnexpectedToken { line: t.line as usize, column: t.column as usize }
}

/// The outcome of requiring a token of kind `kind` at index `p`.
pub open spec fn expect_at(ts: Seq<SpecToken>, p: int, kind: SpecTokenType) -> Result<(), ParseError> {
    if p < 0 || p >= ts.len() {
        Err(ParseError::UnexpectedEnd)
    } else if ts[p].kind == kind {
        Ok(())
    } else {
        Err(unexpected(ts[p]))
    }
}

/// Whether an outcome of the parser is the mathematical outcome `s`.
pub open spec fn result_matches(r: Result<Expression, ParseError>, s: Result<SpecExpression, ParseError>) -> bool {
    match s {
        Ok(e) => r matches Ok(x) && x@ == e,
        Err(err) => r == Err::<Expression, ParseError>(err),
    }
}

/// Whether an outcome of a parse that yields one expression is the
/// mathematical outcome `s`: the same expression, with the cursor moved to the
/// same position, or the same error.
pub open spec fn outcome_matches<'a>(
    r: Result<(TokenIterator<'a>, Expression), ParseError>,
    from: TokenIterator<'a>,
    s: Result<(SpecExpression, int), ParseError>,
) -> bool {
    match s {
        Ok((e, q)) => r matches Ok((it, x)) && it.moved(&from, q) && x@ == e,
        Err(err) => r matches Err(e2) && e2 == err,
    }
}

/// The index of the first line end at or after `p`, or the length.
pub open spec fn line_end(ts: Seq<SpecToken>, p: int) -> int
    decreases ts.len() - p,
{
    if p < 0 || p >= ts.len() {
        ts.len() as int
    } else if ts[p].kind is EndLine {
        p
    } else {
        line_end(ts, p + 1)
    }
}

/// The position after the line that starts at `p`, past its line end if it has one.
pub open spec fn after_line(ts: Seq<SpecToken>, p: int) -> int {
    let e = line_end(ts, p);
    if e < ts.len() {
        e + 1
    } else {
        e
    }
}

pub proof fn lemma_line_end_bounds(ts: Seq<SpecToken>, p: int)
    requires
        0 <= p <= ts.len(),
    ensures
        p <= line_end(ts, p) <= ts.len(),
        line_end(ts, p) < ts.len() ==> ts[line_end(ts, p)].kind is EndLine,
        forall|i: int| p <= i < line_end(ts, p) ==> !(#[trigger] ts[i].kind is EndLine),
    decreases ts.len() - p,
{
    if p < ts.len() && !(ts[p].kind is EndLine) {
        lemma_line_end_bounds(ts, p + 1);
    }
}

/// A cursor over a sequence of tokens.
#[derive(Debug, Clone, Copy)]
pub struct TokenIterator<'a> {
    tokens: &'a [Token],
    position: usize,
}

impl<'a> TokenIterator<'a> {
    /// All the tokens, read or not.
    pub closed spec fn tokens(&self) -> Seq<SpecToken> {
        view_tokens(self.tokens@)
    }

    /// The tokens as they are held.
    pub closed spec fn slice(&self) -> &'a [Token] {
        self.tokens
    }

    /// How many tokens have been read.
    pub closed spec fn position(&self) -> int {
        self.position as int
    }

    pub open spec fn wf(&self) -> bool {
        &&& 0 <= self.position() <= self.tokens().len()
        &&& self.tokens() == view_tokens(self.slice()@)
    }

    /// Whether this cursor is `from` moved to position `q` over the same tokens.
    pub open spec fn moved(&self, from: &TokenIterator<'a>, q: int) -> bool {
        &&& self.wf()
        &&& self.tokens() == from.tokens()
        &&& self.slice() == from.slice()
        &&& self.position() == q
    }

    /// A cursor before the first of `tokens`.
    pub fn new(tokens: &'a [Token]) -> (r: Self)
        ensures
            r.wf(),
            r.tokens() == view_tokens(tokens@),
            r.slice() == tokens,
            r.position() == 0,
    {
        TokenIterator { tokens, position: 0 }
    }

    /// The next token, if any, without moving.
    pub fn peek(&self) -> (r: Option<&'a Token>)
        requires
            self.wf(),
        ensures
            self.position() < self.tokens().len() ==> (r matches Some(t) && t@
                == self.tokens()[self.position()]),
            self.position() >= self.tokens().len() ==> r is None,
    {
        if self.position < self.tokens.len() {
            Some(&self.tokens[self.position])
        } else {
            None
        }
    }

    /// The next token, if any; the cursor moves past it.
    pub fn next(&mut self) -> (r: Option<&'a Token>)
        requires
            old(self).wf(),
        ensures
            final(self).wf(),
            final(self).tokens() == old(self).tokens(),
            final(self).slice() == old(self).slice(),
            old(self).position() < old(self).tokens().len() ==> (r matches Some(t) && t@
                == old(self).tokens()[old(self).position()] && final(self).position()
                == old(self).position() + 1),
            old(self).position() >= old(self).tokens().len() ==> (r is None
                && final(self).position() == old(self).position()),
    {
        if self.position < self.tokens.len() {
            let t = &self.tokens[self.position];
            self.position = self.position + 1;
            Some(t)
        } else {
            None
        }
    }

    /// A copy of the next token, which must exist.
    pub fn peek_some(&self) -> (r: Result<Token, ParseError>)
        requires
            self.wf(),
        ensures
            self.position() < self.tokens().len() ==> (r matches Ok(t) && t@
                == self.tokens()[self.position()]),
            self.position() >= self.tokens().len() ==> r == Err::<Token, ParseError>(
                ParseError::UnexpectedEnd,
            ),
    {
        match self.peek() {
            Some(token) => Ok(token.clone()),
            None => Err(ParseError::UnexpectedEnd),
        }
    }

    /// A copy of the next token, which must exist; the cursor moves past it.
    pub fn next_some(&mut self) -> (r: Result<Token, ParseError>)
        requires
            old(self).wf(),
        ensures
            final(self).wf(),
            final(self).tokens() == old(self).tokens(),
            final(self).slice() == old(self).slice(),
            old(self).position() < old(self).tokens().len() ==> (r matches Ok(t) && t@
                == old(self).tokens()[old(self).position()] && final(self).position()
                == old(self).position() + 1),
            old(self).position() >= old(self).tokens().len() ==> r == Err::<Token, ParseError>(
                ParseError::UnexpectedEnd,
            ),
    {
        match self.next() {
            Some(token) => Ok(token.clone()),
            None => Err(ParseError::UnexpectedEnd),
        }
    }

    /// The tokens up to the next line end, or to the end; the cursor moves past
    /// them and past the line end.
    pub(crate) fn take_line(&mut self) -> (r: &'a [Token])
        requires
            old(self).wf(),
        ensures
            final(self).wf(),
            final(self).tokens() == old(self).tokens(),
            final(self).slice() == old(self).slice(),
            r@ == old(self).slice()@.subrange(
                old(self).position(),
                line_end(old(self).tokens(), old(self).position()),
            ),
            final(self).position() == after_line(old(self).tokens(), old(self).position()),
    {
        let ghost ts = self.tokens();
        let start = self.position;
        let mut end = self.position;
        while end < self.tokens.len()
            invariant
                ts == view_tokens(self.tokens@),
                start <= end <= self.tokens@.len(),
                line_end(ts, start as int) == line_end(ts, end as int),
            ensures
                start <= end <= self.tokens@.len(),
                line_end(ts, start as int) == end,
            decreases self.tokens@.len() - end,
        {
            assert(ts[end as int] == self.tokens@[end as int]@);
            if let TokenType::EndLine = self.tokens[end].token_type {
                break;
            }
            end = end + 1;
        }
        let line = vstd::slice::slice_subrange(self.tokens, start, end);
        self.position = if end < self.tokens.len() {
            end + 1
        } else {
            end
        };
        line
    }

    /// Moves past the next token, which must be of kind `expected`.
    pub fn next_expected(&mut self, expected: TokenType) -> (r: Result<(), ParseError>)
        requires
            old(self).wf(),
        ensures
            final(self).wf(),
            final(self).tokens() == old(self).tokens(),
            final(self).slice() == old(self).slice(),
            r == expect_at(old(self).tokens(), old(self).position(), expected@),
            r is Ok ==> final(self).position() == old(self).position() + 1,
    {
        match self.next() {
            Some(token) => {
                if token.token_type == expected {
                    Ok(())
                } else {
                    Err(ParseError::UnexpectedToken { line: token.line, column: token.column })
                }
            },
            None => Err(ParseError::UnexpectedEnd),
        }
    }
}

} // verus!
