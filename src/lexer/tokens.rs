use vstd::prelude::*;

verus! {

/// The lexical categories of the language.
#[derive(Debug)]
pub enum TokenType {
    NewLineIndent(u32),
    EndLine,
    If,
    Else,
    ElseIf,
    Comment(String),
    CommentBlock(String),
    Equal,
    NotEqual,
    And,
    Or,
    Greater,
    Less,
    GreaterEqual,
    LessEqual,
    Add,
    Subtract,
    Multiply,
    Divide,
    Increment,
    Decrement,
    Modulo,
    ParenthesisOpen,
    ParenthesisClose,
    SquareBracketOpen,
    SquareBracketClose,
    Comma,
    AsciiBlock(String),
    Identifier(String),
    String(String),
}

/// The mathematical value of a `TokenType`: text is held as a sequence of characters.
pub enum SpecTokenType {
    NewLineIndent(u32),
    EndLine,
    If,
    Else,
    ElseIf,
    Comment(Seq<char>),
    CommentBlock(Seq<char>),
    Equal,
    NotEqual,
    And,
    Or,
    Greater,
    Less,
    GreaterEqual,
    LessEqual,
    Add,
    Subtract,
    Multiply,
    Divide,
    Increment,
    Decrement,
    Modulo,
    ParenthesisOpen,
    ParenthesisClose,
    SquareBracketOpen,
    SquareBracketClose,
    Comma,
    AsciiBlock(Seq<char>),
    Identifier(Seq<char>),
    String(Seq<char>),
}

impl View for TokenType {
    type V = SpecTokenType;

    open spec fn view(&self) -> SpecTokenType {
        match self {
            TokenType::NewLineIndent(w) => SpecTokenType::NewLineIndent(*w),
            TokenType::EndLine => SpecTokenType::EndLine,
            TokenType::If => SpecTokenType::If,
            TokenType::Else => SpecTokenType::Else,
            TokenType::ElseIf => SpecTokenType::ElseIf,
            TokenType::Comment(s) => SpecTokenType::Comment(s@),
            TokenType::CommentBlock(s) => SpecTokenType::CommentBlock(s@),
            TokenType::Equal => SpecTokenType::Equal,
            TokenType::NotEqual => SpecTokenType::NotEqual,
            TokenType::And => SpecTokenType::And,
            TokenType::Or => SpecTokenType::Or,
            TokenType::Greater => SpecTokenType::Greater,
            TokenType::Less => SpecTokenType::Less,
            TokenType::GreaterEqual => SpecTokenType::GreaterEqual,
            TokenType::LessEqual => SpecTokenType::LessEqual,
            TokenType::Add => SpecTokenType::Add,
            TokenType::Subtract => SpecTokenType::Subtract,
            TokenType::Multiply => SpecTokenType::Multiply,
            TokenType::Divide => SpecTokenType::Divide,
            TokenType::Increment => SpecTokenType::Increment,
            TokenType::Decrement => SpecTokenType::Decrement,
            TokenType::Modulo => SpecTokenType::Modulo,
            TokenType::ParenthesisOpen => SpecTokenType::ParenthesisOpen,
            TokenType::ParenthesisClose => SpecTokenType::ParenthesisClose,
            TokenType::SquareBracketOpen => SpecTokenType::SquareBracketOpen,
            TokenType::SquareBracketClose => SpecTokenType::SquareBracketClose,
            TokenType::Comma => SpecTokenType::Comma,
            TokenType::AsciiBlock(s) => SpecTokenType::AsciiBlock(s@),
            TokenType::Identifier(s) => SpecTokenType::Identifier(s@),
            TokenType::String(s) => SpecTokenType::String(s@),
        }
    }
}

impl Clone for TokenType {
    fn clone(&self) -> (r: TokenType)
        ensures
            r == *self,
    {
        match self {
            TokenType::NewLineIndent(w) => TokenType::NewLineIndent(*w),
            TokenType::EndLine => TokenType::EndLine,
            TokenType::If => TokenType::If,
            TokenType::Else => TokenType::Else,
            TokenType::ElseIf => TokenType::ElseIf,
            TokenType::Comment(s) => TokenType::Comment(s.clone()),
            TokenType::CommentBlock(s) => TokenType::CommentBlock(s.clone()),
            TokenType::Equal => TokenType::Equal,
            TokenType::NotEqual => TokenType::NotEqual,
            TokenType::And => TokenType::And,
            TokenType::Or => TokenType::Or,
            TokenType::Greater => TokenType::Greater,
            TokenType::Less => TokenType::Less,
            TokenType::GreaterEqual => TokenType::GreaterEqual,
            TokenType::LessEqual => TokenType::LessEqual,
            TokenType::Add => TokenType::Add,
            TokenType::Subtract => TokenType::Subtract,
            TokenType::Multiply => TokenType::Multiply,
            TokenType::Divide => TokenType::Divide,
            TokenType::Increment => TokenType::Increment,
            TokenType::Decrement => TokenType::Decrement,
            TokenType::Modulo => TokenType::Modulo,
            TokenType::ParenthesisOpen => TokenType::ParenthesisOpen,
            TokenType::ParenthesisClose => TokenType::ParenthesisClose,
            TokenType::SquareBracketOpen => TokenType::SquareBracketOpen,
            TokenType::SquareBracketClose => TokenType::SquareBracketClose,
            TokenType::Comma => TokenType::Comma,
            TokenType::AsciiBlock(s) => TokenType::AsciiBlock(s.clone()),
            TokenType::Identifier(s) => TokenType::Identifier(s.clone()),
            TokenType::String(s) => TokenType::String(s.clone()),
        }
    }
}

impl PartialEq for TokenType {
    fn eq(&self, other: &TokenType) -> (r: bool) {
        match (self, other) {
            (TokenType::NewLineIndent(a), TokenType::NewLineIndent(b)) => *a == *b,
            (TokenType::EndLine, TokenType::EndLine) => true,
            (TokenType::If, TokenType::If) => true,
            (TokenType::Else, TokenType::Else) => true,
            (TokenType::ElseIf, TokenType::ElseIf) => true,
            (TokenType::Comment(a), TokenType::Comment(b)) => *a == *b,
            (TokenType::CommentBlock(a), TokenType::CommentBlock(b)) => *a == *b,
            (TokenType::Equal, TokenType::Equal) => true,
            (TokenType::NotEqual, TokenType::NotEqual) => true,
            (TokenType::And, TokenType::And) => true,
            (TokenType::Or, TokenType::Or) => true,
            (TokenType::Greater, TokenType::Greater) => true,
            (TokenType::Less, TokenType::Less) => true,
            (TokenType::GreaterEqual, TokenType::GreaterEqual) => true,
            (TokenType::LessEqual, TokenType::LessEqual) => true,
            (TokenType::Add, TokenType::Add) => true,
            (TokenType::Subtract, TokenType::Subtract) => true,
            (TokenType::Multiply, TokenType::Multiply) => true,
            (TokenType::Divide, TokenType::Divide) => true,
            (TokenType::Increment, TokenType::Increment) => true,
            (TokenType::Decrement, TokenType::Decrement) => true,
            (TokenType::Modulo, TokenType::Modulo) => true,
            (TokenType::ParenthesisOpen, TokenType::ParenthesisOpen) => true,
            (TokenType::ParenthesisClose, TokenType::ParenthesisClose) => true,
            (TokenType::SquareBracketOpen, TokenType::SquareBracketOpen) => true,
            (TokenType::SquareBracketClose, TokenType::SquareBracketClose) => true,
            (TokenType::Comma, TokenType::Comma) => true,
            (TokenType::AsciiBlock(a), TokenType::AsciiBlock(b)) => *a == *b,
            (TokenType::Identifier(a), TokenType::Identifier(b)) => *a == *b,
            (TokenType::String(a), TokenType::String(b)) => *a == *b,
            _ => false,
        }
    }
}

impl vstd::std_specs::cmp::PartialEqSpecImpl for TokenType {
    open spec fn obeys_eq_spec() -> bool {
        true
    }

    open spec fn eq_spec(&self, other: &TokenType) -> bool {
        self@ == other@
    }
}

/// A token with the position of its first character: `line` counts from 1,
/// `column` from 0 and restarts after each line break.
#[derive(Debug)]
pub struct Token {
    pub token_type: TokenType,
    pub line: usize,
    pub column: usize,
}

/// The mathematical value of a `Token`.
pub struct SpecToken {
    pub kind: SpecTokenType,
    pub line: int,
    pub column: int,
}

impl View for Token {
    type V = SpecToken;

    open spec fn view(&self) -> SpecToken {
        SpecToken { kind: self.token_type@, line: self.line as int, column: self.column as int }
    }
}

impl Clone for Token {
    fn clone(&self) -> (r: Token)
        ensures
            r == *self,
    {
        Token { token_type: self.token_type.clone(), line: self.line, column: self.column }
    }
}

impl PartialEq for Token {
    fn eq(&self, other: &Token) -> (r: bool) {
        self.token_type == other.token_type && self.line == other.line && self.column
            == other.column
    }
}

impl vstd::std_specs::cmp::PartialEqSpecImpl for Token {
    open spec fn obeys_eq_spec() -> bool {
        true
    }

    open spec fn eq_spec(&self, other: &Token) -> bool {
        self@ == other@
    }
}

impl PartialEq<TokenType> for Token {
    fn eq(&self, other: &TokenType) -> (r: bool) {
        self.token_type == *other
    }
}

impl vstd::std_specs::cmp::PartialEqSpecImpl<TokenType> for Token {
    open spec fn obeys_eq_spec() -> bool {
        true
    }

    open spec fn eq_spec(&self, other: &TokenType) -> bool {
        self.token_type@ == other@
    }
}

/// The kinds of a sequence of tokens.
pub open spec fn kinds_of(ts: Seq<Token>) -> Seq<SpecTokenType> {
    ts.map_values(|t: Token| t.token_type@)
}

/// The mathematical values of a sequence of token kinds.
pub open spec fn view_types(ts: Seq<TokenType>) -> Seq<SpecTokenType> {
    ts.map_values(|t: TokenType| t@)
}

/// The kinds of a sequence of mathematical tokens.
pub open spec fn kinds(ts: Seq<SpecToken>) -> Seq<SpecTokenType> {
    ts.map_values(|t: SpecToken| t.kind)
}

} // verus!
