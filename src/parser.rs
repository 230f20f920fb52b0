pub mod parse;
pub mod structs;
pub mod types;

use vstd::prelude::*;

use crate::lexer::tokens::{kinds, SpecToken, SpecTokenType, Token};
use crate::lexer::view_tokens;
use parse::block::{block, parse_expression_block, prepend_block, tree};
use parse::expression::{
    assignment, function_body, function_definition, function_header, parameters_at, primary_line,
    statement,
};
use parse::primary::{
    delta, depth, first_split, high_level_operators, low_level_operators, primary, split_by, wrapped,
};
use structs::{Expression, SpecExpression};
use types::{expect_at, line_end, result_matches, unexpected, ParseError};

verus! {

/// The syntax tree of a sequence of tokens: a block of its statements in
/// order, or the error that stops parsing.
pub fn parse(tokens: &[Token]) -> (r: Result<Expression, ParseError>)
    ensures
        result_matches(r, tree(view_tokens(tokens@))),
{
    parse_expression_block(tokens)
}

// ---------------------------------------------------------------------------
// Failures abort the whole pass
// ---------------------------------------------------------------------------

/// Whether parsing statements from position `p` comes to position `q`, every
/// statement on the way being parsed.
pub open spec fn statements_reach(ts: Seq<SpecToken>, p: int, q: int) -> bool
    decreases ts.len() - p,
{
    ||| p == q
    ||| 0 <= p < ts.len() && match statement(ts, p) {
        Ok((_, r)) => p < r <= ts.len() && statements_reach(ts, r, q),
        Err(_) => false,
    }
}

/// A statement that fails, wherever parsing comes to it, fails the whole pass
/// with its error: no tree is produced.
pub proof fn lemma_parse_failure_aborts(ts: Seq<SpecToken>, p: int, q: int)
    requires
        statements_reach(ts, p, q),
        0 <= q < ts.len(),
        statement(ts, q) is Err,
    ensures
        block(ts, p) == Err::<Seq<SpecExpression>, ParseError>(statement(ts, q)->Err_0),
    decreases ts.len() - p,
{
    if p != q {
        if let Ok((_, r)) = statement(ts, p) {
            lemma_parse_failure_aborts(ts, r, q);
        }
    }
}

/// A statement that starts with a token no statement can start with fails the
/// whole pass, naming that token.
pub proof fn lemma_unexpected_statement_aborts(ts: Seq<SpecToken>, q: int)
    requires
        statements_reach(ts, 0, q),
        0 <= q < ts.len(),
        !(ts[q].kind is NotEqual || ts[q].kind is ParenthesisOpen || ts[q].kind is Identifier
            || ts[q].kind is If),
    ensures
        tree(ts) == Err::<SpecExpression, ParseError>(unexpected(ts[q])),
{
    lemma_parse_failure_aborts(ts, 0, q);
}

// ---------------------------------------------------------------------------
// Redundant parentheses
// ---------------------------------------------------------------------------

/// Parentheses that match: no prefix closes more than it opens, and the
/// whole opens as many as it closes.
pub open spec fn balanced(ts: Seq<SpecTokenType>) -> bool {
    &&& depth(ts) == 0
    &&& forall|i: int| 0 <= i <= ts.len() ==> depth(#[trigger] ts.take(i)) >= 0
}

/// `ts` inside `n` pairs of parentheses.
pub open spec fn parenthesized(ts: Seq<SpecTokenType>, n: nat) -> Seq<SpecTokenType>
    decreases n,
{
    if n == 0 {
        ts
    } else {
        seq![SpecTokenType::ParenthesisOpen] + parenthesized(ts, (n - 1) as nat) + seq![
            SpecTokenType::ParenthesisClose,
        ]
    }
}

proof fn lemma_depth_after_open(s: Seq<SpecTokenType>)
    ensures
        depth(seq![SpecTokenType::ParenthesisOpen] + s) == 1 + depth(s),
    decreases s.len(),
{
    let w = seq![SpecTokenType::ParenthesisOpen] + s;
    if s.len() == 0 {
        assert(w.drop_last() =~= Seq::<SpecTokenType>::empty());
        assert(w.last() == SpecTokenType::ParenthesisOpen);
        assert(depth(w) == depth(w.drop_last()) + delta(w.last()));
    } else {
        assert(w.drop_last() =~= seq![SpecTokenType::ParenthesisOpen] + s.drop_last());
        assert(w.last() == s.last());
        lemma_depth_after_open(s.drop_last());
        assert(depth(w) == depth(w.drop_last()) + delta(w.last()));
        assert(depth(s) == depth(s.drop_last()) + delta(s.last()));
    }
}

proof fn lemma_no_split_inside(w: Seq<SpecTokenType>, op: SpecTokenType, from: int)
    requires
        0 <= from,
        w.len() >= 2,
        w[0] is ParenthesisOpen,
        w.last() is ParenthesisClose,
        !(op is ParenthesisOpen || op is ParenthesisClose),
        forall|i: int| 1 <= i < w.len() ==> depth(#[trigger] w.take(i)) >= 1,
    ensures
        first_split(w, op, from) is None,
    decreases w.len() - from,
{
    if from < w.len() {
        lemma_no_split_inside(w, op, from + 1);
    }
}

/// One pair of redundant parentheses around balanced tokens changes nothing,
/// and the result is balanced again.
proof fn lemma_one_pair(ts: Seq<SpecTokenType>)
    requires
        balanced(ts),
    ensures
        primary(parenthesized(ts, 1)) == primary(ts),
        balanced(parenthesized(ts, 1)),
{
    let w = parenthesized(ts, 1);
    let open = seq![SpecTokenType::ParenthesisOpen];
    assert(parenthesized(ts, 0) == ts);
    assert(w == open + ts + seq![SpecTokenType::ParenthesisClose]);
    let m = w.len() as int;
    assert(w.drop_last() =~= open + ts);
    assert(w.subrange(1, m - 1) =~= ts);
    lemma_depth_after_open(ts);
    assert forall|i: int| 1 <= i < m implies depth(#[trigger] w.take(i)) >= 1 by {
        assert(w.take(i) =~= open + ts.take(i - 1));
        lemma_depth_after_open(ts.take(i - 1));
    }
    assert forall|i: int| 0 <= i <= m implies depth(#[trigger] w.take(i)) >= 0 by {
        if i == 0 {
            assert(w.take(0) =~= Seq::<SpecTokenType>::empty());
        } else if i == m {
            assert(w.take(m) =~= w);
        }
    }
    assert(w.take(m) =~= w);
    if m == 2 {
        assert(ts =~= Seq::<SpecTokenType>::empty());
    } else if m == 3 {
        assert(ts =~= w.subrange(1, 2));
    } else {
        lemma_no_split_inside(w, SpecTokenType::Add, 0);
        lemma_no_split_inside(w, SpecTokenType::Subtract, 0);
        lemma_no_split_inside(w, SpecTokenType::Multiply, 0);
        lemma_no_split_inside(w, SpecTokenType::Divide, 0);
        let low = low_level_operators();
        let high = high_level_operators();
        assert(low[0] == SpecTokenType::Add && low.drop_first()[0] == SpecTokenType::Subtract);
        assert(high[0] == SpecTokenType::Multiply && high.drop_first()[0] == SpecTokenType::Divide);
        assert(low.drop_first().drop_first() =~= Seq::<SpecTokenType>::empty());
        assert(high.drop_first().drop_first() =~= Seq::<SpecTokenType>::empty());
        assert(split_by(w, low.drop_first().drop_first()) is None);
        assert(split_by(w, low.drop_first()) is None);
        assert(split_by(w, low) is None);
        assert(split_by(w, high.drop_first().drop_first()) is None);
        assert(split_by(w, high.drop_first()) is None);
        assert(split_by(w, high) is None);
        assert(wrapped(w));
    }
}

/// Redundant parentheses, any number of pairs, around balanced tokens (such
/// as an additive expression) resolve to the same tree as the tokens alone.
pub proof fn lemma_redundant_parentheses(ts: Seq<SpecTokenType>, n: nat)
    requires
        balanced(ts),
    ensures
        primary(parenthesized(ts, n)) == primary(ts),
        balanced(parenthesized(ts, n)),
    decreases n,
{
    if n > 0 {
        lemma_redundant_parentheses(ts, (n - 1) as nat);
        let inner = parenthesized(ts, (n - 1) as nat);
        lemma_one_pair(inner);
        assert(parenthesized(inner, 1) =~= parenthesized(ts, n)) by {
            assert(parenthesized(inner, 0) == inner);
        }
    }
}

// ---------------------------------------------------------------------------
// What the tree depends on
// ---------------------------------------------------------------------------

proof fn lemma_line_end_by_kinds(a: Seq<SpecToken>, b: Seq<SpecToken>, p: int)
    requires
        kinds(a) == kinds(b),
    ensures
        line_end(a, p) == line_end(b, p),
    decreases a.len() - p,
{
    assert(a.len() == kinds(a).len() && b.len() == kinds(b).len());
    if 0 <= p < a.len() {
        assert(kinds(a)[p] == a[p].kind && kinds(b)[p] == b[p].kind);
        lemma_line_end_by_kinds(a, b, p + 1);
    }
}

/// The expression of a line depends on the kinds of its tokens alone, not on
/// their positions: tokens of the same kinds give the same tree.
pub proof fn lemma_primary_line_ignores_positions(a: Seq<SpecToken>, b: Seq<SpecToken>, p: int)
    requires
        kinds(a) == kinds(b),
        0 <= p <= a.len(),
    ensures
        primary_line(a, p) == primary_line(b, p),
{
    lemma_line_end_by_kinds(a, b, p);
    let e = line_end(a, p);
    crate::parser::types::lemma_line_end_bounds(a, p);
    assert(kinds(a.subrange(p, e)) =~= kinds(a).subrange(p, e));
    assert(kinds(b.subrange(p, e)) =~= kinds(b).subrange(p, e));
    assert(a.len() == kinds(a).len() && b.len() == kinds(b).len());
}

/// A function body ends, without consuming it, at an indentation of another
/// width than that of its first line.
pub proof fn lemma_body_ends_at_other_indentation(ts: Seq<SpecToken>, q: int, width: u32, other: u32)
    requires
        0 <= q < ts.len(),
        ts[q].kind == SpecTokenType::NewLineIndent(other),
        other != width,
    ensures
        function_body(ts, q, width) == Ok::<(Seq<SpecExpression>, int), ParseError>((Seq::empty(), q)),
{
}

/// Two outcomes that succeed together and then agree. (Errors may differ,
/// as they name positions.)
pub open spec fn same_success<T>(x: Result<T, ParseError>, y: Result<T, ParseError>) -> bool {
    &&& (x is Ok <==> y is Ok)
    &&& x is Ok ==> x == y
}

proof fn lemma_kinds_agree(a: Seq<SpecToken>, b: Seq<SpecToken>)
    requires
        kinds(a) == kinds(b),
    ensures
        a.len() == b.len(),
        forall|i: int| 0 <= i < a.len() ==> #[trigger] a[i].kind == b[i].kind,
{
    assert(a.len() == kinds(a).len() && b.len() == kinds(b).len());
    assert forall|i: int| 0 <= i < a.len() implies #[trigger] a[i].kind == b[i].kind by {
        assert(kinds(a)[i] == a[i].kind && kinds(b)[i] == b[i].kind);
    }
}

proof fn lemma_header_by_kinds(a: Seq<SpecToken>, b: Seq<SpecToken>, p: int)
    requires
        kinds(a) == kinds(b),
    ensures
        same_success(function_header(a, p), function_header(b, p)),
{
    lemma_kinds_agree(a, b);
    if function_header(a, p) is Ok || function_header(b, p) is Ok {
        assert(expect_at(a, p + 2, SpecTokenType::ParenthesisOpen) is Ok <==> expect_at(b, p + 2, SpecTokenType::ParenthesisOpen) is Ok);
        assert(same_success(parameters_at(a, p + 3), parameters_at(b, p + 3)));
    }
}

proof fn lemma_assignment_by_kinds(a: Seq<SpecToken>, b: Seq<SpecToken>, p: int)
    requires
        kinds(a) == kinds(b),
        0 <= p <= a.len(),
    ensures
        same_success(assignment(a, p), assignment(b, p)),
{
    lemma_kinds_agree(a, b);
    if 0 <= p < a.len() && p + 2 <= a.len() {
        lemma_primary_line_ignores_positions(a, b, p + 2);
    }
}

/// The statement at `p`, parsed from tokens of the same kinds, succeeds for
/// both or for neither, and then gives the same tree.
pub proof fn lemma_statement_ignores_positions(a: Seq<SpecToken>, b: Seq<SpecToken>, p: int)
    requires
        kinds(a) == kinds(b),
    ensures
        same_success(statement(a, p), statement(b, p)),
    decreases a.len() - p, 2int,
{
    lemma_kinds_agree(a, b);
    if 0 <= p < a.len() {
        lemma_primary_line_ignores_positions(a, b, p);
        lemma_assignment_by_kinds(a, b, p);
        lemma_function_ignores_positions(a, b, p);
    }
}

proof fn lemma_function_ignores_positions(a: Seq<SpecToken>, b: Seq<SpecToken>, p: int)
    requires
        kinds(a) == kinds(b),
        0 <= p < a.len(),
    ensures
        same_success(function_definition(a, p), function_definition(b, p)),
    decreases a.len() - p, 1int,
{
    lemma_kinds_agree(a, b);
    lemma_header_by_kinds(a, b, p);
    if let Ok((_, _, q)) = function_header(a, p) {
        if 0 <= q < a.len() {
            if let SpecTokenType::NewLineIndent(width) = a[q].kind {
                lemma_body_ignores_positions(a, b, q, width);
            }
        }
    }
}

proof fn lemma_body_ignores_positions(a: Seq<SpecToken>, b: Seq<SpecToken>, q: int, width: u32)
    requires
        kinds(a) == kinds(b),
        0 <= q < a.len(),
    ensures
        same_success(function_body(a, q, width), function_body(b, q, width)),
    decreases a.len() - q, 0int,
{
    lemma_kinds_agree(a, b);
    if a[q].kind == SpecTokenType::NewLineIndent(width) {
        lemma_statement_ignores_positions(a, b, q + 1);
        if let Ok((_, r)) = statement(a, q + 1) {
            if q < r < a.len() {
                lemma_body_ignores_positions(a, b, r, width);
            }
        }
    }
}

proof fn lemma_block_ignores_positions(a: Seq<SpecToken>, b: Seq<SpecToken>, p: int)
    requires
        kinds(a) == kinds(b),
    ensures
        same_success(block(a, p), block(b, p)),
    decreases a.len() - p,
{
    lemma_kinds_agree(a, b);
    if 0 <= p < a.len() {
        lemma_statement_ignores_positions(a, b, p);
        if let Ok((_, r)) = statement(a, p) {
            if p < r <= a.len() {
                lemma_block_ignores_positions(a, b, r);
            }
        }
    }
}

/// The syntax tree depends on the kinds of the tokens alone: tokens of the
/// same kinds at other positions parse, or fail, together, and give the same
/// tree.
pub proof fn lemma_tree_ignores_positions(a: Seq<SpecToken>, b: Seq<SpecToken>)
    requires
        kinds(a) == kinds(b),
    ensures
        same_success(tree(a), tree(b)),
{
    lemma_block_ignores_positions(a, b, 0);
}

} // verus!
