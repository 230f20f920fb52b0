pub mod tokens;

use vstd::prelude::*;

use tokens::{SpecToken, SpecTokenType, Token, TokenType};

verus! {

broadcast use vstd::string::group_string_axioms;

// ---------------------------------------------------------------------------
// Positions
// ---------------------------------------------------------------------------

/// Line and column reached after reading the first `p` characters: every
/// character advances the column by one, except a line break, which starts the
/// next line at column 0.
pub open spec fn position_after(chars: Seq<char>, p: int) -> (int, int)
    decreases p,
{
    if p <= 0 {
        (1, 0)
    } else {
        let (line, column) = position_after(chars, p - 1);
        if chars[p - 1] == '\n' {
            (line + 1, 0)
        } else {
            (line, column + 1)
        }
    }
}

/// Lines start at 1 and grow by at most one per character; columns never
/// exceed the number of characters read.
pub proof fn lemma_position_bounds(chars: Seq<char>, p: int)
    requires
        0 <= p,
    ensures
        1 <= position_after(chars, p).0 <= p + 1,
        0 <= position_after(chars, p).1 <= p,
    decreases p,
{
    if p > 0 {
        lemma_position_bounds(chars, p - 1);
    }
}

// ---------------------------------------------------------------------------
// Character classes and delimiters
// ---------------------------------------------------------------------------

pub open spec fn is_ascii_letter(c: char) -> bool {
    ('a' <= c <= 'z') || ('A' <= c <= 'Z')
}

pub open spec fn is_ascii_digit(c: char) -> bool {
    '0' <= c <= '9'
}

/// Whether Unicode gives the character the Alphabetic or a Numeric property.
pub uninterp spec fn unicode_alphanumeric(c: char) -> bool;

/// A character that continues an identifier: an ASCII letter or digit, or a
/// character beyond ASCII that Unicode calls alphabetic or numeric.
pub open spec fn is_word_char(c: char) -> bool {
    if (c as u32) < 128 {
        is_ascii_letter(c) || is_ascii_digit(c)
    } else {
        unicode_alphanumeric(c)
    }
}

/// The identifier that opens a raw text block when a line break follows it.
pub open spec fn ascii_keyword() -> Seq<char> {
    seq!['a', 's', 'c', 'i', 'i']
}

/// The line that closes a raw text block.
pub open spec fn ascii_terminator() -> Seq<char> {
    seq!['\n', 'a', 's', 'c', 'i', 'i', 'e', 'n', 'd']
}

/// The marker that closes a block comment.
pub open spec fn comment_terminator() -> Seq<char> {
    seq!['*', '/']
}

/// The first index at or after `from` where `pat` occurs in `chars`, if any.
pub open spec fn find_from(chars: Seq<char>, from: int, pat: Seq<char>) -> Option<int>
    decreases chars.len() - from,
{
    if from < 0 || from >= chars.len() || from + pat.len() > chars.len() {
        None
    } else if chars.subrange(from, from + pat.len()) == pat {
        Some(from)
    } else {
        find_from(chars, from + 1, pat)
    }
}

/// The first index at or after `from` that holds `c`, or the length when none does.
pub open spec fn find_char(chars: Seq<char>, from: int, c: char) -> int
    decreases chars.len() - from,
{
    if from < 0 || from >= chars.len() {
        chars.len() as int
    } else if chars[from] == c {
        from
    } else {
        find_char(chars, from + 1, c)
    }
}

/// The end of the run of characters that satisfy `is_word_char` starting at `from`.
pub open spec fn word_end(chars: Seq<char>, from: int) -> int
    decreases chars.len() - from,
{
    if from < 0 || from >= chars.len() || !is_word_char(chars[from]) {
        from
    } else {
        word_end(chars, from + 1)
    }
}

/// The end of the run of spaces starting at `from`.
pub open spec fn space_end(chars: Seq<char>, from: int) -> int
    decreases chars.len() - from,
{
    if from < 0 || from >= chars.len() || chars[from] != ' ' {
        from
    } else {
        space_end(chars, from + 1)
    }
}

/// What a delimited text that starts at `from` holds, and where reading stops:
/// up to the first occurrence of `close`, which is consumed but not kept, or to
/// the end of the input when `close` never occurs.
pub open spec fn delimited(chars: Seq<char>, from: int, close: Seq<char>) -> (Seq<char>, int) {
    match find_from(chars, from, close) {
        Some(j) => (chars.subrange(from, j), j + close.len()),
        None => (chars.subrange(from, chars.len() as int), chars.len() as int),
    }
}

// ---------------------------------------------------------------------------
// Errors
// ---------------------------------------------------------------------------

/// Why tokenizing stopped.
#[derive(Debug, PartialEq, Eq, Structural, Clone, Copy)]
pub enum LexError {
    /// A token cannot start with this character.
    UnexpectedCharacter { character: char, line: usize, column: usize },
}

// ---------------------------------------------------------------------------
// The tokenizer, one token at a time
// ---------------------------------------------------------------------------

/// The character after `p`, if there is one.
pub open spec fn peek_at(chars: Seq<char>, p: int) -> Option<char> {
    if 0 <= p + 1 < chars.len() {
        Some(chars[p + 1])
    } else {
        None
    }
}

/// The token kind that starts at `p` (a character other than a space) and the
/// position after it.
pub open spec fn scan_token(chars: Seq<char>, p: int) -> Result<(SpecTokenType, int), LexError> {
    let c = chars[p];
    let next = peek_at(chars, p);
    if c == '/' {
        if next == Some('/') {
            let e = find_char(chars, p + 2, '\n');
            Ok((SpecTokenType::Comment(chars.subrange(p + 2, e)), e))
        } else if next == Some('*') {
            let (text, e) = delimited(chars, p + 2, comment_terminator());
            Ok((SpecTokenType::CommentBlock(text), e))
        } else {
            Ok((SpecTokenType::Divide, p + 1))
        }
    } else if c == '?' {
        Ok((SpecTokenType::If, p + 1))
    } else if c == ':' {
        if next == Some('?') {
            Ok((SpecTokenType::ElseIf, p + 2))
        } else {
            Ok((SpecTokenType::Else, p + 1))
        }
    } else if c == '=' {
        Ok((SpecTokenType::Equal, p + 1))
    } else if c == '!' {
        Ok((SpecTokenType::NotEqual, p + 1))
    } else if c == '&' {
        Ok((SpecTokenType::And, p + 1))
    } else if c == '|' {
        Ok((SpecTokenType::Or, p + 1))
    } else if c == '>' {
        if next == Some('=') {
            Ok((SpecTokenType::GreaterEqual, p + 2))
        } else {
            Ok((SpecTokenType::Greater, p + 1))
        }
    } else if c == '<' {
        if next == Some('=') {
            Ok((SpecTokenType::LessEqual, p + 2))
        } else {
            Ok((SpecTokenType::Less, p + 1))
        }
    } else if c == '+' {
        if next == Some('+') {
            Ok((SpecTokenType::Increment, p + 2))
        } else {
            Ok((SpecTokenType::Add, p + 1))
        }
    } else if c == '-' {
        if next == Some('-') {
            Ok((SpecTokenType::Decrement, p + 2))
        } else {
            Ok((SpecTokenType::Subtract, p + 1))
        }
    } else if c == '*' {
        Ok((SpecTokenType::Multiply, p + 1))
    } else if c == '%' {
        Ok((SpecTokenType::Modulo, p + 1))
    } else if c == '(' {
        Ok((SpecTokenType::ParenthesisOpen, p + 1))
    } else if c == ')' {
        Ok((SpecTokenType::ParenthesisClose, p + 1))
    } else if c == '[' {
        Ok((SpecTokenType::SquareBracketOpen, p + 1))
    } else if c == ']' {
        Ok((SpecTokenType::SquareBracketClose, p + 1))
    } else if c == ',' {
        Ok((SpecTokenType::Comma, p + 1))
    } else if c == '"' {
        let (text, e) = delimited(chars, p + 1, seq!['"']);
        Ok((SpecTokenType::String(text), e))
    } else if is_ascii_letter(c) {
        let e = word_end(chars, p + 1);
        if e < chars.len() && chars[e] == '\n' && chars.subrange(p, e) == ascii_keyword() {
            let (text, f) = delimited(chars, e + 1, ascii_terminator());
            Ok((SpecTokenType::AsciiBlock(text), f))
        } else {
            Ok((SpecTokenType::Identifier(chars.subrange(p, e)), e))
        }
    } else if c == '\n' {
        Ok((SpecTokenType::EndLine, p + 1))
    } else {
        let (line, column) = position_after(chars, p);
        Err(LexError::UnexpectedCharacter { character: c, line: line as usize, column: column as usize })
    }
}

/// The token stamped with the position of the character at `p`.
pub open spec fn token_at(chars: Seq<char>, p: int, kind: SpecTokenType) -> SpecToken {
    SpecToken { kind, line: position_after(chars, p).0, column: position_after(chars, p).1 }
}

/// One step of the tokenizer from position `p`: nothing when the input is
/// exhausted, else the next token and the position after it. `line_start` says
/// whether no token, or a line end, came before; only there do spaces count, as
/// an indentation of their number. Elsewhere a space is skipped.
pub open spec fn lex_step(chars: Seq<char>, p: int, line_start: bool) -> Result<
    Option<(SpecToken, int)>,
    LexError,
>
    decreases chars.len() - p,
{
    if p < 0 || p >= chars.len() {
        Ok(None)
    } else if chars[p] == ' ' {
        if line_start {
            let e = space_end(chars, p);
            Ok(Some((token_at(chars, p, SpecTokenType::NewLineIndent((e - p) as u32)), e)))
        } else {
            lex_step(chars, p + 1, false)
        }
    } else {
        match scan_token(chars, p) {
            Ok((kind, e)) => Ok(Some((token_at(chars, p, kind), e))),
            Err(err) => Err(err),
        }
    }
}

/// The tokens from position `p` to the end of the input, or the first error.
pub open spec fn tokens_from(chars: Seq<char>, p: int, line_start: bool) -> Result<
    Seq<SpecToken>,
    LexError,
>
    decreases chars.len() - p,
    via tokens_from_decreases
{
    match lex_step(chars, p, line_start) {
        Err(err) => Err(err),
        Ok(None) => Ok(Seq::empty()),
        Ok(Some((t, e))) => match tokens_from(chars, e, t.kind is EndLine) {
            Ok(rest) => Ok(seq![t] + rest),
            Err(err) => Err(err),
        },
    }
}

#[via_fn]
proof fn tokens_from_decreases(chars: Seq<char>, p: int, line_start: bool) {
    lemma_lex_step_advances(chars, p, line_start);
}

/// The tokens of a whole text.
pub open spec fn lex(chars: Seq<char>) -> Result<Seq<SpecToken>, LexError> {
    tokens_from(chars, 0, true)
}

// ---------------------------------------------------------------------------
// Calls into std
// ---------------------------------------------------------------------------

/// Relies on `char::is_alphanumeric`: whether the character has Unicode's
/// Alphabetic property or a Numeric general category, which depends on the
/// character alone.
#[verifier::external_body]
fn is_unicode_alphanumeric(c: char) -> (r: bool)
    ensures
        r == unicode_alphanumeric(c),
{
    c.is_alphanumeric()
}

/// Relies on `String::push`: appends the character to the end of the string.
#[verifier::external_body]
fn push_char(s: &mut String, c: char)
    ensures
        final(s)@ == old(s)@.push(c),
{
    s.push(c)
}

/// The characters of `s`.
pub fn chars_of(s: &str) -> (r: Vec<char>)
    ensures
        r@ == s@,
{
    let mut chars: Vec<char> = Vec::new();
    for c in it: s.chars()
        invariant
            chars@ == it.seq().take(it.index() as int),
            it.seq() == s@,
    {
        chars.push(c);
    }
    chars
}

/// Whether `c` continues an identifier.
fn word_char(c: char) -> (r: bool)
    ensures
        r == is_word_char(c),
{
    if (c as u32) < 128 {
        ('a' <= c && c <= 'z') || ('A' <= c && c <= 'Z') || ('0' <= c && c <= '9')
    } else {
        is_unicode_alphanumeric(c)
    }
}

// ---------------------------------------------------------------------------
// Reading characters
// ---------------------------------------------------------------------------

/// A cursor over the characters of a text that knows the line and column of
/// the next character.
pub struct ContentIterator {
    chars: Vec<char>,
    position: usize,
    line: usize,
    column: usize,
}

impl ContentIterator {
    /// The characters of the text.
    pub closed spec fn content(&self) -> Seq<char> {
        self.chars@
    }

    /// How many characters have been read.
    pub closed spec fn position(&self) -> int {
        self.position as int
    }

    pub closed spec fn wf(&self) -> bool {
        &&& self.position <= self.chars@.len()
        &&& self.chars@.len() < u32::MAX
        &&& (self.line as int, self.column as int) == position_after(self.chars@, self.position as int)
    }

    /// A cursor at the start of `content`.
    pub fn new(content: &str) -> (r: ContentIterator)
        requires
            content@.len() < u32::MAX,
        ensures
            r.wf(),
            r.content() == content@,
            r.position() == 0,
    {
        let chars = chars_of(content);
        ContentIterator { chars, position: 0, line: 1, column: 0 }
    }

    /// Reads the next character, if any, and moves past it.
    pub fn next(&mut self) -> (r: Option<char>)
        requires
            old(self).wf(),
        ensures
            final(self).wf(),
            final(self).content() == old(self).content(),
            old(self).position() < old(self).content().len() ==> r == Some(
                old(self).content()[old(self).position()],
            ) && final(self).position() == old(self).position() + 1,
            old(self).position() >= old(self).content().len() ==> r is None
                && final(self).position() == old(self).position(),
    {
        if self.position < self.chars.len() {
            let c = self.chars[self.position];
            proof {
                lemma_position_bounds(self.chars@, self.position as int);
            }
            if c == '\n' {
                self.line = self.line + 1;
                self.column = 0;
            } else {
                self.column = self.column + 1;
            }
            self.position = self.position + 1;
            Some(c)
        } else {
            None
        }
    }

    /// The next character, if any, without moving.
    pub fn peek(&self) -> (r: Option<char>)
        requires
            self.wf(),
        ensures
            r == (if self.position() < self.content().len() {
                Some(self.content()[self.position()])
            } else {
                None
            }),
    {
        if self.position < self.chars.len() {
            Some(self.chars[self.position])
        } else {
            None
        }
    }

    /// The character after the next one, if any.
    fn peek_second(&self) -> (r: Option<char>)
        requires
            self.wf(),
        ensures
            r == peek_at(self.content(), self.position()),
    {
        if self.chars.len() > 0 && self.position < self.chars.len() - 1 {
            Some(self.chars[self.position + 1])
        } else {
            None
        }
    }

    /// Whether `pat` occurs in the text at index `at`.
    fn occurs_at(&self, at: usize, pat: &Vec<char>) -> (r: bool)
        requires
            self.wf(),
        ensures
            r == (at + pat@.len() <= self.content().len() && self.content().subrange(
                at as int,
                at + pat@.len(),
            ) == pat@),
    {
        if at > self.chars.len() || pat.len() > self.chars.len() - at {
            return false;
        }
        let mut i: usize = 0;
        while i < pat.len()
            invariant
                self.wf(),
                i <= pat@.len(),
                at + pat@.len() <= self.content().len(),
                forall|k: int| 0 <= k < i ==> self.chars@[at + k] == pat@[k],
            decreases pat@.len() - i,
        {
            if self.chars[at + i] != pat[i] {
                assert(self.content().subrange(at as int, at + pat@.len())[i as int]
                    != pat@[i as int]);
                return false;
            }
            i = i + 1;
        }
        assert(self.content().subrange(at as int, at + pat@.len()) =~= pat@);
        true
    }

    /// Reads characters onto `text` up to the next `stop` (left unread) or the end.
    fn read_until_char(&mut self, stop: char, text: &mut String)
        requires
            old(self).wf(),
        ensures
            final(self).wf(),
            final(self).content() == old(self).content(),
            final(self).position() == find_char(old(self).content(), old(self).position(), stop),
            final(text)@ == old(text)@ + old(self).content().subrange(
                old(self).position(),
                final(self).position(),
            ),
    {
        let ghost start = self.position();
        let ghost text0 = text@;
        while self.position < self.chars.len() && self.chars[self.position] != stop
            invariant
                self.wf(),
                self.content() == old(self).content(),
                0 <= start <= self.position(),
                find_char(self.content(), start, stop) == find_char(self.content(), self.position(), stop),
                text@ == text0 + self.content().subrange(start, self.position()),
            decreases self.content().len() - self.position(),
        {
            let c = self.chars[self.position];
            self.next();
            push_char(text, c);
            assert(text@ =~= text0 + self.content().subrange(start, self.position()));
        }
    }

    /// Reads the rest of a word onto `text`.
    fn read_word(&mut self, text: &mut String)
        requires
            old(self).wf(),
        ensures
            final(self).wf(),
            final(self).content() == old(self).content(),
            final(self).position() == word_end(old(self).content(), old(self).position()),
            final(text)@ == old(text)@ + old(self).content().subrange(
                old(self).position(),
                final(self).position(),
            ),
    {
        let ghost start = self.position();
        let ghost text0 = text@;
        while self.position < self.chars.len() && word_char(self.chars[self.position])
            invariant
                self.wf(),
                self.content() == old(self).content(),
                0 <= start <= self.position(),
                word_end(self.content(), start) == word_end(self.content(), self.position()),
                text@ == text0 + self.content().subrange(start, self.position()),
            decreases self.content().len() - self.position(),
        {
            let c = self.chars[self.position];
            self.next();
            push_char(text, c);
            assert(text@ =~= text0 + self.content().subrange(start, self.position()));
        }
    }

    /// Moves past a run of spaces and returns how many there were.
    fn skip_spaces(&mut self) -> (r: usize)
        requires
            old(self).wf(),
        ensures
            final(self).wf(),
            final(self).content() == old(self).content(),
            final(self).position() == space_end(old(self).content(), old(self).position()),
            r == final(self).position() - old(self).position(),
    {
        let ghost start = self.position();
        let mut n: usize = 0;
        while self.position < self.chars.len() && self.chars[self.position] == ' '
            invariant
                self.wf(),
                self.content() == old(self).content(),
                0 <= start <= self.position(),
                n == self.position() - start,
                space_end(self.content(), start) == space_end(self.content(), self.position()),
            decreases self.content().len() - self.position(),
        {
            self.next();
            n = n + 1;
        }
        n
    }

    /// Reads a delimited text from the current position; see `delimited`.
    fn read_delimited(&mut self, close: &Vec<char>) -> (r: String)
        requires
            old(self).wf(),
            close@.len() > 0,
        ensures
            final(self).wf(),
            final(self).content() == old(self).content(),
            (r@, final(self).position()) == delimited(old(self).content(), old(self).position(), close@),
    {
        let ghost start = self.position();
        let mut text = String::new();
        while self.position < self.chars.len() && !self.occurs_at(self.position, close)
            invariant
                self.wf(),
                self.content() == old(self).content(),
                close@.len() > 0,
                0 <= start <= self.position(),
                find_from(self.content(), start, close@) == find_from(self.content(), self.position(), close@),
                text@ == self.content().subrange(start, self.position()),
            decreases self.content().len() - self.position(),
        {
            let c = self.chars[self.position];
            self.next();
            push_char(&mut text, c);
            assert(text@ =~= self.content().subrange(start, self.position()));
        }
        if self.position < self.chars.len() {
            let mut i: usize = 0;
            let ghost found = self.position();
            while i < close.len()
                invariant
                    self.wf(),
                    self.content() == old(self).content(),
                    found + close@.len() <= self.content().len(),
                    i <= close@.len(),
                    self.position() == found + i,
                decreases close@.len() - i,
            {
                self.next();
                i = i + 1;
            }
        }
        text
    }

    /// The line and column of the next character.
    pub fn location(&self) -> (r: (usize, usize))
        requires
            self.wf(),
        ensures
            (r.0 as int, r.1 as int) == position_after(self.content(), self.position()),
    {
        (self.line, self.column)
    }
}

// ---------------------------------------------------------------------------
// The tokenizer
// ---------------------------------------------------------------------------

/// The mathematical value of a sequence of tokens.
pub open spec fn view_tokens(ts: Seq<Token>) -> Seq<SpecToken> {
    ts.map_values(|t: Token| t@)
}

/// `prefix` put in front of the tokens of `rest`; an error stays as it is.
pub open spec fn prepend(prefix: Seq<SpecToken>, rest: Result<Seq<SpecToken>, LexError>) -> Result<
    Seq<SpecToken>,
    LexError,
> {
    match rest {
        Ok(ts) => Ok(prefix + ts),
        Err(e) => Err(e),
    }
}

/// A tokenizer over one text that hands out one token per call of `next`.
pub struct Lexer {
    content_iterator: ContentIterator,
    at_line_start: bool,
    line: usize,
    column: usize,
}

impl Lexer {
    /// The text being tokenized.
    pub closed spec fn content(&self) -> Seq<char> {
        self.content_iterator.content()
    }

    /// How many characters have been consumed.
    pub closed spec fn position(&self) -> int {
        self.content_iterator.position()
    }

    /// Whether no token, or a line end, was produced last.
    pub closed spec fn at_line_start(&self) -> bool {
        self.at_line_start
    }

    /// The position that the next token made by `create_token` carries.
    pub closed spec fn token_position(&self) -> (int, int) {
        (self.line as int, self.column as int)
    }

    pub closed spec fn wf(&self) -> bool {
        self.content_iterator.wf()
    }

    /// A tokenizer at the start of `content`. An indentation width is a `u32`,
    /// so a text holds fewer than `u32::MAX` characters.
    pub fn new(content: &str) -> (r: Lexer)
        requires
            content@.len() < u32::MAX,
        ensures
            r.wf(),
            r.content() == content@,
            r.position() == 0,
            r.at_line_start(),
            r.token_position() == (1int, 0int),
    {
        Lexer { content_iterator: ContentIterator::new(content), at_line_start: true, line: 1, column: 0 }
    }

    /// A token of the given type at the start of the token being scanned.
    pub fn create_token(&self, token_type: TokenType) -> (r: Token)
        ensures
            r.token_type == token_type,
            (r.line as int, r.column as int) == self.token_position(),
    {
        Token { token_type, line: self.line, column: self.column }
    }

    /// Scans the token whose first character `c`, other than a space, has just been read.
    fn scan(&mut self, c: char) -> (r: Result<TokenType, LexError>)
        requires
            old(self).wf(),
            1 <= old(self).position(),
            old(self).content()[old(self).position() - 1] == c,
            c != ' ',
            old(self).token_position() == position_after(old(self).content(), old(self).position() - 1),
        ensures
            final(self).wf(),
            final(self).content() == old(self).content(),
            final(self).at_line_start() == old(self).at_line_start(),
            final(self).token_position() == old(self).token_position(),
            match scan_token(old(self).content(), old(self).position() - 1) {
                Ok((kind, e)) => r matches Ok(t) && t@ == kind && final(self).position() == e,
                Err(err) => r == Err::<TokenType, LexError>(err),
            },
    {
        let ghost chars = self.content();
        let ghost p = self.position() - 1;
        let start: usize = self.content_iterator.position - 1;
        let next = self.content_iterator.peek();
        if c == '/' {
            if next == Some('/') {
                self.content_iterator.next();
                let mut text = String::new();
                self.content_iterator.read_until_char('\n', &mut text);
                assert(text@ =~= chars.subrange(p + 2, self.position()));
                Ok(TokenType::Comment(text))
            } else if next == Some('*') {
                self.content_iterator.next();
                let close = vec!['*', '/'];
                assert(close@ =~= comment_terminator());
                let text = self.content_iterator.read_delimited(&close);
                Ok(TokenType::CommentBlock(text))
            } else {
                Ok(TokenType::Divide)
            }
        } else if c == '?' {
            Ok(TokenType::If)
        } else if c == ':' {
            if next == Some('?') {
                self.content_iterator.next();
                Ok(TokenType::ElseIf)
            } else {
                Ok(TokenType::Else)
            }
        } else if c == '=' {
            Ok(TokenType::Equal)
        } else if c == '!' {
            Ok(TokenType::NotEqual)
        } else if c == '&' {
            Ok(TokenType::And)
        } else if c == '|' {
            Ok(TokenType::Or)
        } else if c == '>' {
            if next == Some('=') {
                self.content_iterator.next();
                Ok(TokenType::GreaterEqual)
            } else {
                Ok(TokenType::Greater)
            }
        } else if c == '<' {
            if next == Some('=') {
                self.content_iterator.next();
                Ok(TokenType::LessEqual)
            } else {
                Ok(TokenType::Less)
            }
        } else if c == '+' {
            if next == Some('+') {
                self.content_iterator.next();
                Ok(TokenType::Increment)
            } else {
                Ok(TokenType::Add)
            }
        } else if c == '-' {
            if next == Some('-') {
                self.content_iterator.next();
                Ok(TokenType::Decrement)
            } else {
                Ok(TokenType::Subtract)
            }
        } else if c == '*' {
            Ok(TokenType::Multiply)
        } else if c == '%' {
            Ok(TokenType::Modulo)
        } else if c == '(' {
            Ok(TokenType::ParenthesisOpen)
        } else if c == ')' {
            Ok(TokenType::ParenthesisClose)
        } else if c == '[' {
            Ok(TokenType::SquareBracketOpen)
        } else if c == ']' {
            Ok(TokenType::SquareBracketClose)
        } else if c == ',' {
            Ok(TokenType::Comma)
        } else if c == '"' {
            let close = vec!['"'];
            assert(close@ =~= seq!['"']);
            let text = self.content_iterator.read_delimited(&close);
            Ok(TokenType::String(text))
        } else if ('a' <= c && c <= 'z') || ('A' <= c && c <= 'Z') {
            let mut text = String::new();
            push_char(&mut text, c);
            self.content_iterator.read_word(&mut text);
            proof {
                lemma_word_end_bounds(chars, p + 1);
            }
            let end: usize = self.content_iterator.position;
            assert(text@ =~= chars.subrange(p, end as int));
            let keyword = vec!['a', 's', 'c', 'i', 'i'];
            assert(keyword@ =~= ascii_keyword());
            if self.content_iterator.peek() == Some('\n') && end - start == 5
                && self.content_iterator.occurs_at(start, &keyword) {
                self.content_iterator.next();
                let close = vec!['\n', 'a', 's', 'c', 'i', 'i', 'e', 'n', 'd'];
                assert(close@ =~= ascii_terminator());
                let block = self.content_iterator.read_delimited(&close);
                Ok(TokenType::AsciiBlock(block))
            } else {
                Ok(TokenType::Identifier(text))
            }
        } else if c == '\n' {
            Ok(TokenType::EndLine)
        } else {
            proof {
                lemma_position_bounds(chars, p);
            }
            Err(LexError::UnexpectedCharacter { character: c, line: self.line, column: self.column })
        }
    }

    /// The next token, `None` once the text is exhausted, or the error that
    /// stops tokenizing; see `lex_step`.
    pub fn next(&mut self) -> (r: Result<Option<Token>, LexError>)
        requires
            old(self).wf(),
        ensures
            final(self).wf(),
            final(self).content() == old(self).content(),
            match lex_step(old(self).content(), old(self).position(), old(self).at_line_start()) {
                Ok(Some((t, e))) => r matches Ok(Some(tok)) && tok@ == t && final(self).position()
                    == e && final(self).at_line_start() == (t.kind is EndLine),
                Ok(None) => r matches Ok(None),
                Err(err) => r == Err::<Option<Token>, LexError>(err),
            },
    {
        let ghost chars = self.content();
        if !self.at_line_start {
            let ghost p0 = self.position();
            self.content_iterator.skip_spaces();
            proof {
                lemma_lex_step_skips_spaces(chars, p0);
                lemma_space_end_bounds(chars, p0);
            }
        }
        let ghost p = self.position();
        let (line, column) = self.content_iterator.location();
        self.line = line;
        self.column = column;
        let c = match self.content_iterator.next() {
            Some(c) => c,
            None => return Ok(None),
        };
        let token_type = if c == ' ' {
            let n = self.content_iterator.skip_spaces();
            proof {
                lemma_space_end_bounds(chars, p + 1);
            }
            assert(space_end(chars, p) == space_end(chars, p + 1));
            TokenType::NewLineIndent((n + 1) as u32)
        } else {
            match self.scan(c) {
                Ok(t) => t,
                Err(e) => return Err(e),
            }
        };
        self.at_line_start = match token_type {
            TokenType::EndLine => true,
            _ => false,
        };
        Ok(Some(self.create_token(token_type)))
    }
}

/// The tokens of `content`, or the error that stops tokenizing it. The text
/// holds fewer than `u32::MAX` characters, as for `Lexer::new`.
pub fn tokenize(content: &str) -> (r: Result<Vec<Token>, LexError>)
    requires
        content@.len() < u32::MAX,
    ensures
        match lex(content@) {
            Ok(ts) => r matches Ok(v) && view_tokens(v@) == ts,
            Err(e) => r == Err::<Vec<Token>, LexError>(e),
        },
{
    let mut lexer = Lexer::new(content);
    let mut tokens: Vec<Token> = Vec::new();
    loop
        invariant
            lexer.wf(),
            lexer.content() == content@,
            0 <= lexer.position() <= content@.len(),
            lex(content@) == prepend(
                view_tokens(tokens@),
                tokens_from(content@, lexer.position(), lexer.at_line_start()),
            ),
        decreases content@.len() - lexer.position(),
    {
        let ghost p = lexer.position();
        let ghost ls = lexer.at_line_start();
        proof {
            lemma_lex_step_advances(content@, p, ls);
        }
        match lexer.next() {
            Err(e) => return Err(e),
            Ok(None) => {
                assert(view_tokens(tokens@) + Seq::<SpecToken>::empty() =~= view_tokens(tokens@));
                return Ok(tokens);
            },
            Ok(Some(t)) => {
                let ghost before = tokens@;
                tokens.push(t);
                assert(view_tokens(tokens@) =~= view_tokens(before) + seq![t@]);
                assert forall|rest: Seq<SpecToken>|
                    view_tokens(before) + (seq![t@] + rest) =~= view_tokens(tokens@) + rest by {}
            },
        }
    }
}

// ---------------------------------------------------------------------------
// Progress lemmas
// ---------------------------------------------------------------------------

pub proof fn lemma_find_from_bounds(chars: Seq<char>, from: int, pat: Seq<char>)
    ensures
        find_from(chars, from, pat) matches Some(j) ==> from <= j && 0 <= j && j + pat.len()
            <= chars.len(),
    decreases chars.len() - from,
{
    if !(from < 0 || from >= chars.len() || from + pat.len() > chars.len()) {
        if chars.subrange(from, from + pat.len()) != pat {
            lemma_find_from_bounds(chars, from + 1, pat);
        }
    }
}

pub proof fn lemma_find_char_bounds(chars: Seq<char>, from: int, c: char)
    requires
        0 <= from,
    ensures
        from <= find_char(chars, from, c) <= chars.len() || (from > chars.len() && find_char(
            chars,
            from,
            c,
        ) == chars.len()),
    decreases chars.len() - from,
{
    if from < chars.len() && chars[from] != c {
        lemma_find_char_bounds(chars, from + 1, c);
    }
}

pub proof fn lemma_word_end_bounds(chars: Seq<char>, from: int)
    ensures
        from <= word_end(chars, from),
        0 <= from <= chars.len() ==> word_end(chars, from) <= chars.len(),
    decreases chars.len() - from,
{
    if !(from < 0 || from >= chars.len() || !is_word_char(chars[from])) {
        lemma_word_end_bounds(chars, from + 1);
    }
}

pub proof fn lemma_space_end_bounds(chars: Seq<char>, from: int)
    ensures
        from <= space_end(chars, from),
        0 <= from <= chars.len() ==> space_end(chars, from) <= chars.len(),
        0 <= from ==> space_end(chars, from) >= chars.len() || chars[space_end(chars, from)] != ' ',
    decreases chars.len() - from,
{
    if !(from < 0 || from >= chars.len() || chars[from] != ' ') {
        lemma_space_end_bounds(chars, from + 1);
    }
}

pub proof fn lemma_delimited_bounds(chars: Seq<char>, from: int, close: Seq<char>)
    requires
        0 <= from <= chars.len(),
    ensures
        from <= delimited(chars, from, close).1 <= chars.len(),
{
    lemma_find_from_bounds(chars, from, close);
}

/// Each token the scanner finds consumes at least one character and stays
/// within the input.
pub proof fn lemma_scan_token_advances(chars: Seq<char>, p: int)
    requires
        0 <= p < chars.len(),
    ensures
        scan_token(chars, p) matches Ok((_, e)) ==> p < e <= chars.len(),
{
    let next = peek_at(chars, p);
    lemma_find_char_bounds(chars, p + 2, '\n');
    if p + 2 <= chars.len() {
        lemma_delimited_bounds(chars, p + 2, comment_terminator());
    }
    lemma_delimited_bounds(chars, p + 1, seq!['"']);
    lemma_word_end_bounds(chars, p + 1);
    let e = word_end(chars, p + 1);
    if e < chars.len() {
        lemma_delimited_bounds(chars, e + 1, ascii_terminator());
    }
}

/// A step of the tokenizer that yields a token moves forward and stays within
/// the input.
pub proof fn lemma_lex_step_advances(chars: Seq<char>, p: int, line_start: bool)
    ensures
        lex_step(chars, p, line_start) matches Ok(Some((_, e))) ==> p < e <= chars.len(),
    decreases chars.len() - p,
{
    if 0 <= p < chars.len() {
        if chars[p] == ' ' {
            if line_start {
                lemma_space_end_bounds(chars, p + 1);
            } else {
                lemma_lex_step_advances(chars, p + 1, false);
            }
        } else {
            lemma_scan_token_advances(chars, p);
        }
    }
}

/// Away from a line start, a run of spaces is skipped.
pub proof fn lemma_lex_step_skips_spaces(chars: Seq<char>, p: int)
    requires
        0 <= p,
    ensures
        lex_step(chars, p, false) == lex_step(chars, space_end(chars, p), false),
    decreases chars.len() - p,
{
    if !(p >= chars.len() || chars[p] != ' ') {
        lemma_lex_step_skips_spaces(chars, p + 1);
    }
}

// ---------------------------------------------------------------------------
// Failures abort the whole pass
// ---------------------------------------------------------------------------

/// The characters that can start a token, spaces aside.
pub open spec fn starts_token(c: char) -> bool {
    ||| c == '/' || c == '?' || c == ':' || c == '=' || c == '!' || c == '&' || c == '|'
    ||| c == '>' || c == '<' || c == '+' || c == '-' || c == '*' || c == '%'
    ||| c == '(' || c == ')' || c == '[' || c == ']' || c == ',' || c == '"' || c == '\n'
    ||| is_ascii_letter(c)
}

/// Whether tokenizing from position `p`, with line start `line_start`, comes
/// to position `q`, with line start `q_line_start`, every step on the way
/// yielding a token.
pub open spec fn lex_reaches(chars: Seq<char>, p: int, line_start: bool, q: int, q_line_start: bool) -> bool
    decreases chars.len() - p,
    via lex_reaches_decreases
{
    ||| p == q && line_start == q_line_start
    ||| match lex_step(chars, p, line_start) {
        Ok(Some((t, e))) => lex_reaches(chars, e, t.kind is EndLine, q, q_line_start),
        _ => false,
    }
}

#[via_fn]
proof fn lex_reaches_decreases(chars: Seq<char>, p: int, line_start: bool, q: int, q_line_start: bool) {
    lemma_lex_step_advances(chars, p, line_start);
}

/// A step that fails, wherever tokenizing comes to it, fails the whole pass
/// with its error: no tokens are produced.
pub proof fn lemma_lex_failure_aborts(chars: Seq<char>, p: int, line_start: bool, q: int, q_line_start: bool)
    requires
        lex_reaches(chars, p, line_start, q, q_line_start),
        lex_step(chars, q, q_line_start) is Err,
    ensures
        tokens_from(chars, p, line_start) == Err::<Seq<SpecToken>, LexError>(
            lex_step(chars, q, q_line_start)->Err_0,
        ),
    decreases chars.len() - p,
{
    if !(p == q && line_start == q_line_start) {
        lemma_lex_step_advances(chars, p, line_start);
        if let Ok(Some((t, e))) = lex_step(chars, p, line_start) {
            lemma_lex_failure_aborts(chars, e, t.kind is EndLine, q, q_line_start);
        }
    }
}

/// A text in which tokenizing comes to a character that no token starts
/// with (and that is no space) has no tokens: the pass fails there, naming
/// the character and its position.
pub proof fn lemma_unrecognized_character_aborts(chars: Seq<char>, q: int, q_line_start: bool)
    requires
        lex_reaches(chars, 0, true, q, q_line_start),
        0 <= q < chars.len(),
        chars[q] != ' ',
        !starts_token(chars[q]),
    ensures
        lex(chars) == Err::<Seq<SpecToken>, LexError>(
            LexError::UnexpectedCharacter {
                character: chars[q],
                line: position_after(chars, q).0 as usize,
                column: position_after(chars, q).1 as usize,
            },
        ),
{
    lemma_lex_failure_aborts(chars, 0, true, q, q_line_start);
}

} // verus!
