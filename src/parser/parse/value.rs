use vstd::prelude::*;

use crate::lexer::tokens::{SpecTokenType, Token, TokenType};
use crate::lexer::{chars_of, is_ascii_digit};
use crate::parser::structs::{Expression, SpecExpression, SpecValue, Value};

verus! {

// ---------------------------------------------------------------------------
// Integer literals
// ---------------------------------------------------------------------------

pub open spec fn digit_value(c: char) -> int {
    (c as u32) as int - ('0' as u32) as int
}

/// The value of a sequence of decimal digits.
pub open spec fn digits_value(s: Seq<char>) -> int
    decreases s.len(),
{
    if s.len() == 0 {
        0
    } else {
        10 * digits_value(s.drop_last()) + digit_value(s.last())
    }
}

pub open spec fn all_digits(s: Seq<char>) -> bool {
    forall|i: int| 0 <= i < s.len() ==> is_ascii_digit(#[trigger] s[i])
}

pub open spec fn is_sign(c: char) -> bool {
    c == '+' || c == '-'
}

/// `s` without its leading sign, if it has one.
pub open spec fn unsigned_part(s: Seq<char>) -> Seq<char> {
    if s.len() > 0 && is_sign(s[0]) {
        s.drop_first()
    } else {
        s
    }
}

/// The integer that `s` spells: an optional sign and one or more decimal
/// digits, with a value that fits in an `i64` (what `str::parse::<i64>` accepts).
pub open spec fn integer_literal(s: Seq<char>) -> Option<i64> {
    let digits = unsigned_part(s);
    let magnitude = digits_value(digits);
    let value = if s.len() > 0 && s[0] == '-' {
        -magnitude
    } else {
        magnitude
    };
    if digits.len() > 0 && all_digits(digits) && i64::MIN <= value <= i64::MAX {
        Some(value as i64)
    } else {
        None
    }
}

// ---------------------------------------------------------------------------
// Decimal literals
// ---------------------------------------------------------------------------

/// Whether `c` is `w`, or the upper-case form of the ASCII letter `w`.
pub open spec fn same_ignoring_case(c: char, w: char) -> bool {
    c == w || ('A' <= c <= 'Z' && (c as u32) + 32 == (w as u32))
}

/// Whether `s` is `word` (written in lower case) up to the case of ASCII letters.
pub open spec fn equals_ignoring_case(s: Seq<char>, word: Seq<char>) -> bool {
    s.len() == word.len() && forall|i: int| 0 <= i < s.len() ==> same_ignoring_case(#[trigger] s[i], word[i])
}

pub open spec fn count_char(s: Seq<char>, c: char) -> nat
    decreases s.len(),
{
    if s.len() == 0 {
        0
    } else {
        count_char(s.drop_last(), c) + if s.last() == c {
            1nat
        } else {
            0nat
        }
    }
}

pub open spec fn is_exponent_marker(c: char) -> bool {
    c == 'e' || c == 'E'
}

/// The index of the first exponent marker in `s`, or its length.
pub open spec fn exponent_start(s: Seq<char>, from: int) -> int
    decreases s.len() - from,
{
    if from < 0 || from >= s.len() || is_exponent_marker(s[from]) {
        from
    } else {
        exponent_start(s, from + 1)
    }
}

/// Digits with at most one decimal point, and at least one digit.
pub open spec fn is_mantissa(m: Seq<char>) -> bool {
    &&& forall|i: int| 0 <= i < m.len() ==> is_ascii_digit(#[trigger] m[i]) || m[i] == '.'
    &&& count_char(m, '.') <= 1
    &&& count_char(m, '.') < m.len()
}

/// Empty, or an exponent marker, an optional sign and one or more digits.
pub open spec fn is_exponent(x: Seq<char>) -> bool {
    x.len() == 0 || (is_exponent_marker(x[0]) && unsigned_part(x.drop_first()).len() > 0
        && all_digits(unsigned_part(x.drop_first())))
}

/// Whether `s` spells a floating-point number as `str::parse::<f64>` reads
/// one: an optional sign, then `inf`, `infinity` or `nan` in any case, or
/// digits with at most one decimal point and an optional exponent.
pub open spec fn is_decimal_literal(s: Seq<char>) -> bool {
    let body = unsigned_part(s);
    let k = exponent_start(body, 0);
    ||| equals_ignoring_case(body, seq!['i', 'n', 'f'])
    ||| equals_ignoring_case(body, seq!['i', 'n', 'f', 'i', 'n', 'i', 't', 'y'])
    ||| equals_ignoring_case(body, seq!['n', 'a', 'n'])
    ||| is_mantissa(body.take(k)) && is_exponent(body.skip(k))
}

/// The expression that a single identifier or string token stands for: an
/// integer, else a decimal, else a name; a string is a string value.
pub open spec fn value_of(kind: SpecTokenType) -> SpecExpression {
    match kind {
        SpecTokenType::Identifier(text) => match integer_literal(text) {
            Some(v) => SpecExpression::Value(SpecValue::Integer(v)),
            None => if is_decimal_literal(text) {
                SpecExpression::Value(SpecValue::Decimal(text))
            } else {
                SpecExpression::Identifier(text)
            },
        },
        SpecTokenType::String(text) => SpecExpression::Value(SpecValue::String(text)),
        _ => SpecExpression::Nope,
    }
}

// ---------------------------------------------------------------------------
// Recognizers
// ---------------------------------------------------------------------------

/// One more than the largest magnitude of an `i64`.
const MAGNITUDE_CAP: u128 = 9223372036854775809;

spec fn capped(v: int) -> int {
    if v < MAGNITUDE_CAP {
        v
    } else {
        MAGNITUDE_CAP as int
    }
}

proof fn lemma_digits_value_nonnegative(s: Seq<char>)
    requires
        all_digits(s),
    ensures
        digits_value(s) >= 0,
    decreases s.len(),
{
    if s.len() > 0 {
        assert(is_ascii_digit(s[s.len() - 1]));
        lemma_digits_value_nonnegative(s.drop_last());
    }
}

/// The integer that `text` spells; see `integer_literal`.
fn parse_integer(text: &Vec<char>) -> (r: Option<i64>)
    ensures
        r == integer_literal(text@),
{
    let n = text.len();
    let start: usize = if n > 0 && (text[0] == '+' || text[0] == '-') {
        1
    } else {
        0
    };
    let ghost digits = unsigned_part(text@);
    assert(digits =~= text@.subrange(start as int, n as int));
    if start >= n {
        return None;
    }
    let mut magnitude: u128 = 0;
    let mut i: usize = start;
    while i < n
        invariant
            start <= i <= n,
            n == text@.len(),
            digits == unsigned_part(text@),
            digits == text@.subrange(start as int, n as int),
            all_digits(text@.subrange(start as int, i as int)),
            magnitude == capped(digits_value(text@.subrange(start as int, i as int))),
        decreases n - i,
    {
        let c = text[i];
        if !('0' <= c && c <= '9') {
            assert(digits[i - start] == c);
            assert(!is_ascii_digit(digits[i - start]));
            return None;
        }
        let ghost before = text@.subrange(start as int, i as int);
        let ghost after = text@.subrange(start as int, i + 1);
        assert(after.drop_last() =~= before);
        proof {
            lemma_digits_value_nonnegative(before);
        }
        let d = (c as u32 - '0' as u32) as u128;
        magnitude = if magnitude >= MAGNITUDE_CAP {
            MAGNITUDE_CAP
        } else {
            let m = magnitude * 10 + d;
            if m > MAGNITUDE_CAP {
                MAGNITUDE_CAP
            } else {
                m
            }
        };
        i = i + 1;
    }
    assert(text@.subrange(start as int, n as int) == digits);
    if text[0] == '-' {
        if magnitude <= 9223372036854775808 {
            Some((0i128 - magnitude as i128) as i64)
        } else {
            None
        }
    } else {
        if magnitude <= 9223372036854775807 {
            Some(magnitude as i64)
        } else {
            None
        }
    }
}

/// Whether the characters of `text` from `from` on are `word` up to case.
fn equals_word_ignoring_case(text: &Vec<char>, from: usize, word: &Vec<char>) -> (r: bool)
    requires
        from <= text@.len(),
    ensures
        r == equals_ignoring_case(text@.subrange(from as int, text@.len() as int), word@),
{
    let ghost s = text@.subrange(from as int, text@.len() as int);
    if text.len() - from != word.len() {
        return false;
    }
    let mut i: usize = 0;
    while i < word.len()
        invariant
            from <= text@.len(),
            text@.len() - from == word@.len(),
            s == text@.subrange(from as int, text@.len() as int),
            s.len() == word@.len(),
            i <= word@.len(),
            forall|j: int| 0 <= j < i ==> same_ignoring_case(#[trigger] s[j], word@[j]),
        decreases word@.len() - i,
    {
        assert(from + i < text.len());
        let c = text[from + i];
        let w = word[i];
        assert(s[i as int] == c);
        if !(c == w || ('A' <= c && c <= 'Z' && (c as u32) + 32 == (w as u32))) {
            assert(s[i as int] == c);
            return false;
        }
        i = i + 1;
    }
    true
}

/// Whether `text[from..to]` is a mantissa; see `is_mantissa`.
fn mantissa_between(text: &Vec<char>, from: usize, to: usize) -> (r: bool)
    requires
        from <= to <= text@.len(),
    ensures
        r == is_mantissa(text@.subrange(from as int, to as int)),
{
    let ghost m = text@.subrange(from as int, to as int);
    let mut points: usize = 0;
    let mut i: usize = from;
    while i < to
        invariant
            from <= i <= to <= text@.len(),
            m == text@.subrange(from as int, to as int),
            points == count_char(text@.subrange(from as int, i as int), '.'),
            points <= i - from,
            forall|j: int| 0 <= j < i - from ==> is_ascii_digit(#[trigger] m[j]) || m[j] == '.',
        decreases to - i,
    {
        let c = text[i];
        assert(text@.subrange(from as int, i + 1).drop_last() =~= text@.subrange(
            from as int,
            i as int,
        ));
        if c == '.' {
            points = points + 1;
        } else if !('0' <= c && c <= '9') {
            assert(m[i - from] == c);
            return false;
        }
        i = i + 1;
    }
    points <= 1 && points < to - from
}

/// Whether `text[from..]` is all digits, and at least one.
fn digits_from(text: &Vec<char>, from: usize) -> (r: bool)
    requires
        from <= text@.len(),
    ensures
        r == (from < text@.len() && all_digits(text@.subrange(from as int, text@.len() as int))),
{
    if from >= text.len() {
        return false;
    }
    let ghost s = text@.subrange(from as int, text@.len() as int);
    let mut i: usize = from;
    while i < text.len()
        invariant
            from <= i <= text@.len(),
            s == text@.subrange(from as int, text@.len() as int),
            forall|j: int| 0 <= j < i - from ==> is_ascii_digit(#[trigger] s[j]),
        decreases text@.len() - i,
    {
        let c = text[i];
        if !('0' <= c && c <= '9') {
            assert(s[i - from] == c);
            return false;
        }
        i = i + 1;
    }
    true
}

/// Whether `text` spells a decimal number; see `is_decimal_literal`.
fn is_decimal_text(text: &Vec<char>) -> (r: bool)
    ensures
        r == is_decimal_literal(text@),
{
    let n = text.len();
    let start: usize = if n > 0 && (text[0] == '+' || text[0] == '-') {
        1
    } else {
        0
    };
    let ghost body = unsigned_part(text@);
    assert(body =~= text@.subrange(start as int, n as int));
    let inf = vec!['i', 'n', 'f'];
    let infinity = vec!['i', 'n', 'f', 'i', 'n', 'i', 't', 'y'];
    let nan = vec!['n', 'a', 'n'];
    assert(inf@ =~= seq!['i', 'n', 'f']);
    assert(infinity@ =~= seq!['i', 'n', 'f', 'i', 'n', 'i', 't', 'y']);
    assert(nan@ =~= seq!['n', 'a', 'n']);
    if equals_word_ignoring_case(text, start, &inf) || equals_word_ignoring_case(
        text,
        start,
        &infinity,
    ) || equals_word_ignoring_case(text, start, &nan) {
        return true;
    }
    let mut k: usize = start;
    while k < n && !(text[k] == 'e' || text[k] == 'E')
        invariant
            start <= k <= n,
            n == text@.len(),
            body == text@.subrange(start as int, n as int),
            exponent_start(body, 0) == exponent_start(body, k - start),
        decreases n - k,
    {
        assert(body[k - start] == text@[k as int]);
        k = k + 1;
    }
    assert(exponent_start(body, k - start) == k - start) by {
        if k < n {
            assert(body[k - start] == text@[k as int]);
        }
    }
    assert(body.take(k - start) =~= text@.subrange(start as int, k as int));
    assert(body.skip(k - start) =~= text@.subrange(k as int, n as int));
    if !mantissa_between(text, start, k) {
        return false;
    }
    if k == n {
        return true;
    }
    let exp_digits: usize = if k + 1 < n && (text[k + 1] == '+' || text[k + 1] == '-') {
        k + 2
    } else {
        k + 1
    };
    let ghost x = text@.subrange(k as int, n as int);
    assert(unsigned_part(x.drop_first()) =~= text@.subrange(exp_digits as int, n as int));
    digits_from(text, exp_digits)
}

/// The expression that an identifier or string token stands for; see `value_of`.
pub fn parse_expression_value(token: &Token) -> (r: Expression)
    requires
        token.token_type@ is Identifier || token.token_type@ is String,
    ensures
        r@ == value_of(token.token_type@),
{
    match &token.token_type {
        TokenType::Identifier(name) => {
            let chars = chars_of(name.as_str());
            match parse_integer(&chars) {
                Some(v) => Expression::Value(Value::Integer(v)),
                None => {
                    if is_decimal_text(&chars) {
                        Expression::Value(Value::Decimal(name.clone()))
                    } else {
                        Expression::Identifier(name.clone())
                    }
                },
            }
        },
        TokenType::String(value) => Expression::Value(Value::String(value.clone())),
        _ => Expression::Nope,
    }
}

} // verus!
