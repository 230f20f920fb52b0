use indent_lang::lexer::tokens::{Token, TokenType};
use indent_lang::lexer::{tokenize, ContentIterator, LexError, Lexer};
use indent_lang::parser::parse;
use indent_lang::parser::parse::parse_expression_value;
use indent_lang::parser::structs::{BinaryOperator, Expression, UnaryOperator, Value};
use indent_lang::parser::types::{ParseError, TokenIterator};
use indent_lang::source::{parse_source, SourceError};

fn kinds(text: &str) -> Vec<TokenType> {
    tokenize(text).unwrap().into_iter().map(|t| t.token_type).collect()
}

fn token(token_type: TokenType, column: usize) -> Token {
    Token { token_type, line: 1, column }
}

fn ident(name: &str) -> TokenType {
    TokenType::Identifier(name.to_string())
}

fn line_of(types: Vec<TokenType>) -> Vec<Token> {
    types.into_iter().enumerate().map(|(i, t)| token(t, i)).collect()
}

fn integer(v: i64) -> Expression {
    Expression::Value(Value::Integer(v))
}

fn name(n: &str) -> Expression {
    Expression::Identifier(n.to_string())
}

fn binary(left: Expression, operator: BinaryOperator, right: Expression) -> Expression {
    Expression::Binary { left: Box::new(left), operator, right: Box::new(right) }
}

fn block(statements: Vec<Expression>) -> Expression {
    Expression::Block { statements }
}

fn value_of(text: &str) -> Expression {
    parse_expression_value(&token(ident(text), 0))
}

// ----- tokenizer -----

#[test]
fn empty_text_has_no_tokens() {
    assert_eq!(tokenize("").unwrap(), Vec::<Token>::new());
}

#[test]
fn spaces_between_tokens_are_dropped() {
    assert_eq!(kinds("a   b"), vec![ident("a"), ident("b")]);
    assert_eq!(kinds("a + b"), vec![ident("a"), TokenType::Add, ident("b")]);
}

#[test]
fn leading_spaces_of_the_text_are_an_indentation() {
    assert_eq!(kinds("   a"), vec![TokenType::NewLineIndent(3), ident("a")]);
}

#[test]
fn indentation_after_line_end_counts_spaces() {
    assert_eq!(
        kinds("hello\n  world"),
        vec![ident("hello"), TokenType::EndLine, TokenType::NewLineIndent(2), ident("world")]
    );
}

#[test]
fn token_positions_are_those_of_their_first_character() {
    let tokens = tokenize("hello\n  world >= x").unwrap();
    let positions: Vec<(usize, usize)> = tokens.iter().map(|t| (t.line, t.column)).collect();
    assert_eq!(positions, vec![(1, 0), (1, 5), (2, 0), (2, 2), (2, 8), (2, 11)]);
    assert_eq!(tokens[4].token_type, TokenType::GreaterEqual);
}

#[test]
fn if_else_layout() {
    assert_eq!(
        kinds("?test\n  hello\n:\n  world"),
        vec![
            TokenType::If,
            ident("test"),
            TokenType::EndLine,
            TokenType::NewLineIndent(2),
            ident("hello"),
            TokenType::EndLine,
            TokenType::Else,
            TokenType::EndLine,
            TokenType::NewLineIndent(2),
            ident("world"),
        ]
    );
}

#[test]
fn two_character_operators() {
    assert_eq!(
        kinds("a++ b-- c>=d e<=f :? :"),
        vec![
            ident("a"),
            TokenType::Increment,
            ident("b"),
            TokenType::Decrement,
            ident("c"),
            TokenType::GreaterEqual,
            ident("d"),
            ident("e"),
            TokenType::LessEqual,
            ident("f"),
            TokenType::ElseIf,
            TokenType::Else,
        ]
    );
}

#[test]
fn identifiers_continue_with_digits_and_letters_beyond_ascii() {
    assert_eq!(kinds("a1b2"), vec![ident("a1b2")]);
    assert_eq!(kinds("héllo wörld"), vec![ident("héllo"), ident("wörld")]);
}

#[test]
fn ascii_block_keeps_raw_text() {
    assert_eq!(kinds("ascii\nhello\nasciiend"), vec![TokenType::AsciiBlock("hello".to_string())]);
    assert_eq!(
        kinds("ascii\n 1 + $\nsecond\nasciiend\na"),
        vec![
            TokenType::AsciiBlock(" 1 + $\nsecond".to_string()),
            TokenType::EndLine,
            ident("a"),
        ]
    );
}

#[test]
fn unterminated_literals_run_to_the_end() {
    assert_eq!(kinds("\"abc"), vec![TokenType::String("abc".to_string())]);
    assert_eq!(kinds("/* abc"), vec![TokenType::CommentBlock(" abc".to_string())]);
    assert_eq!(kinds("ascii\nabc"), vec![TokenType::AsciiBlock("abc".to_string())]);
}

#[test]
fn block_comment_ends_at_first_closing_marker() {
    assert_eq!(
        kinds("/* a*b */x"),
        vec![TokenType::CommentBlock(" a*b ".to_string()), ident("x")]
    );
}

#[test]
fn line_comment_stops_before_line_end() {
    assert_eq!(
        kinds("// note\nx"),
        vec![TokenType::Comment(" note".to_string()), TokenType::EndLine, ident("x")]
    );
}

#[test]
fn unexpected_character_fails_with_its_position() {
    assert_eq!(
        tokenize("a\n  #"),
        Err(LexError::UnexpectedCharacter { character: '#', line: 2, column: 2 })
    );
    assert_eq!(
        tokenize("1"),
        Err(LexError::UnexpectedCharacter { character: '1', line: 1, column: 0 })
    );
}

#[test]
fn characters_inside_comments_and_strings_are_not_checked() {
    assert_eq!(
        kinds("\"1 $\" // 2 #"),
        vec![TokenType::String("1 $".to_string()), TokenType::Comment(" 2 #".to_string())]
    );
}

#[test]
fn lexer_hands_out_tokens_one_by_one() {
    let mut lexer = Lexer::new("a\n b");
    let first = lexer.next().unwrap().unwrap();
    assert_eq!(first.token_type, ident("a"));
    assert_eq!(lexer.next().unwrap().unwrap().token_type, TokenType::EndLine);
    let indent = lexer.next().unwrap().unwrap();
    assert_eq!((indent.token_type, indent.line, indent.column), (TokenType::NewLineIndent(1), 2, 0));
    assert_eq!(lexer.next().unwrap().unwrap().token_type, ident("b"));
    assert_eq!(lexer.next(), Ok(None));
}

#[test]
fn content_iterator_tracks_lines_and_columns() {
    let mut it = ContentIterator::new("ab\nc");
    assert_eq!(it.peek(), Some('a'));
    assert_eq!(it.next(), Some('a'));
    assert_eq!(it.location(), (1, 1));
    it.next();
    assert_eq!(it.next(), Some('\n'));
    assert_eq!(it.location(), (2, 0));
    assert_eq!(it.next(), Some('c'));
    assert_eq!(it.next(), None);
    assert_eq!(it.peek(), None);
}

// ----- values -----

#[test]
fn integer_literals() {
    assert_eq!(value_of("42"), integer(42));
    assert_eq!(value_of("-12"), integer(-12));
    assert_eq!(value_of("+5"), integer(5));
    assert_eq!(value_of("9223372036854775807"), integer(i64::MAX));
    assert_eq!(value_of("-9223372036854775808"), integer(i64::MIN));
}

#[test]
fn decimal_literals_keep_their_text() {
    for text in ["1.5", ".5", "1.", "1e5", "2.5E-3", "inf", "-Infinity", "NaN", "9223372036854775808"] {
        assert_eq!(value_of(text), Expression::Value(Value::Decimal(text.to_string())), "{}", text);
    }
}

#[test]
fn other_words_are_names() {
    for text in ["abc", "e5", ".", "1e", "1.2.3", "infinit", "-", "1_0"] {
        assert_eq!(value_of(text), name(text), "{}", text);
    }
}

#[test]
fn string_token_is_a_string_value() {
    let t = token(TokenType::String("hi".to_string()), 0);
    assert_eq!(parse_expression_value(&t), Expression::Value(Value::String("hi".to_string())));
}

// ----- primary expressions -----

#[test]
fn additive_chain_groups_to_the_right() {
    let tokens = line_of(vec![ident("1"), TokenType::Add, ident("2"), TokenType::Subtract, ident("3")]);
    assert_eq!(
        parse(&tokens).unwrap(),
        block(vec![binary(integer(1), BinaryOperator::Add, binary(integer(2), BinaryOperator::Subtract, integer(3)))])
    );
}

#[test]
fn addition_is_split_before_subtraction() {
    let tokens = line_of(vec![ident("1"), TokenType::Subtract, ident("2"), TokenType::Add, ident("3")]);
    assert_eq!(
        parse(&tokens).unwrap(),
        block(vec![binary(binary(integer(1), BinaryOperator::Subtract, integer(2)), BinaryOperator::Add, integer(3))])
    );
}

#[test]
fn multiplication_is_split_before_division() {
    let tokens = line_of(vec![ident("1"), TokenType::Divide, ident("2"), TokenType::Multiply, ident("3")]);
    assert_eq!(
        parse(&tokens).unwrap(),
        block(vec![binary(binary(integer(1), BinaryOperator::Divide, integer(2)), BinaryOperator::Multiply, integer(3))])
    );
}

#[test]
fn three_token_comparison() {
    let tokens = line_of(vec![ident("a"), TokenType::Equal, ident("b")]);
    assert_eq!(parse(&tokens).unwrap(), block(vec![binary(name("a"), BinaryOperator::Equal, name("b"))]));
}

#[test]
fn nested_redundant_parentheses_collapse_at_any_depth() {
    let inner = vec![ident("1"), TokenType::Add, ident("2")];
    for depth in 0..6 {
        let mut types = vec![TokenType::ParenthesisOpen; depth];
        types.extend(inner.clone());
        types.extend(vec![TokenType::ParenthesisClose; depth]);
        assert_eq!(
            parse(&line_of(types)).unwrap(),
            block(vec![binary(integer(1), BinaryOperator::Add, integer(2))]),
            "depth {}",
            depth
        );
    }
}

#[test]
fn empty_parentheses_and_single_group() {
    let empty = line_of(vec![TokenType::ParenthesisOpen, TokenType::ParenthesisClose]);
    assert_eq!(parse(&empty).unwrap(), block(vec![Expression::Nope]));
    let one = line_of(vec![TokenType::ParenthesisOpen, ident("1"), TokenType::ParenthesisClose]);
    assert_eq!(parse(&one).unwrap(), block(vec![integer(1)]));
}

#[test]
fn unary_forms() {
    let negate = line_of(vec![TokenType::NotEqual, ident("a")]);
    assert_eq!(
        parse(&negate).unwrap(),
        block(vec![Expression::Unary { operator: UnaryOperator::Negate, right: Box::new(name("a")) }])
    );
    let increment = line_of(vec![ident("a"), TokenType::Increment]);
    assert_eq!(
        parse(&increment).unwrap(),
        block(vec![Expression::Unary { operator: UnaryOperator::Increment, right: Box::new(name("a")) }])
    );
    let decrement = line_of(vec![ident("7"), TokenType::Decrement]);
    assert_eq!(
        parse(&decrement).unwrap(),
        block(vec![Expression::Unary { operator: UnaryOperator::Decrement, right: Box::new(name("7")) }])
    );
}

#[test]
fn negated_group() {
    let tokens = line_of(vec![
        TokenType::NotEqual,
        TokenType::ParenthesisOpen,
        ident("a"),
        TokenType::And,
        ident("b"),
        TokenType::ParenthesisClose,
    ]);
    assert_eq!(
        parse(&tokens).unwrap(),
        block(vec![Expression::Unary {
            operator: UnaryOperator::Negate,
            right: Box::new(binary(name("a"), BinaryOperator::And, name("b"))),
        }])
    );
}

#[test]
fn malformed_lines_are_rejected() {
    let cases = vec![
        vec![ident("a"), TokenType::Add],
        vec![ident("a"), ident("b")],
        vec![ident("a"), ident("b"), ident("c")],
        vec![ident("a"), ident("b"), ident("c"), ident("d")],
        vec![ident("a"), TokenType::Add, TokenType::String("s".to_string())],
    ];
    for types in cases {
        assert_eq!(parse(&line_of(types.clone())), Err(ParseError::UnexpectedExpression), "{:?}", types);
    }
}

// ----- statements -----

#[test]
fn statements_are_kept_in_order() {
    assert_eq!(
        parse_source("a\nb + c\n(d)").unwrap(),
        block(vec![name("a"), binary(name("b"), BinaryOperator::Add, name("c")), name("d")])
    );
}

#[test]
fn function_without_parameters() {
    assert_eq!(
        parse_source("func test()\n    a").unwrap(),
        block(vec![Expression::Function {
            name: "test".to_string(),
            parameters: vec![],
            body: Box::new(block(vec![name("a")])),
        }])
    );
}

#[test]
fn function_with_one_parameter_and_two_lines() {
    assert_eq!(
        parse_source("func f(x)\n  x + a\n  b\nc").unwrap(),
        block(vec![
            Expression::Function {
                name: "f".to_string(),
                parameters: vec!["x".to_string()],
                body: Box::new(block(vec![binary(name("x"), BinaryOperator::Add, name("a")), name("b")])),
            },
            name("c"),
        ])
    );
}

#[test]
fn function_body_ends_at_another_indentation() {
    assert_eq!(
        parse_source("func f()\n  a\n    b"),
        Err(SourceError::Parse(ParseError::UnexpectedToken { line: 3, column: 0 }))
    );
}

#[test]
fn assignment_takes_the_leading_name() {
    let tokens = line_of(vec![ident("var"), TokenType::Equal, ident("5")]);
    assert_eq!(
        parse(&tokens).unwrap(),
        block(vec![Expression::Assignment { name: "var".to_string(), value: Box::new(integer(5)) }])
    );
    let named = line_of(vec![ident("var"), ident("x"), TokenType::Equal, ident("5")]);
    assert_eq!(parse(&named), Err(ParseError::UnexpectedToken { line: 1, column: 1 }));
}

#[test]
fn parse_errors_name_their_cause() {
    assert_eq!(
        parse(&line_of(vec![TokenType::Comma])),
        Err(ParseError::UnexpectedToken { line: 1, column: 0 })
    );
    assert_eq!(
        parse(&line_of(vec![TokenType::If, ident("a")])),
        Err(ParseError::ConditionNotSupported { line: 1, column: 0 })
    );
    assert_eq!(parse(&line_of(vec![ident("func")])), Err(ParseError::UnexpectedEnd));
    assert_eq!(
        parse(&line_of(vec![ident("func"), ident("f"), TokenType::ParenthesisOpen, TokenType::Comma])),
        Err(ParseError::UnexpectedToken { line: 1, column: 3 })
    );
}

#[test]
fn failure_in_a_later_statement_aborts_the_pass() {
    assert_eq!(
        parse_source("a\nb\n,"),
        Err(SourceError::Parse(ParseError::UnexpectedToken { line: 3, column: 0 }))
    );
    assert_eq!(
        parse_source("a\nb $"),
        Err(SourceError::Lex(LexError::UnexpectedCharacter { character: '$', line: 2, column: 2 }))
    );
}

#[test]
fn parsing_twice_gives_the_same_tree() {
    let text = "func f()\n  (a + b) * x\n!y";
    assert_eq!(parse_source(text), parse_source(text));
    assert!(parse_source(text).is_ok());
}

#[test]
fn tree_does_not_depend_on_token_positions() {
    let types = vec![ident("a"), TokenType::Multiply, TokenType::ParenthesisOpen, ident("b"), TokenType::Subtract, ident("c"), TokenType::ParenthesisClose];
    let spread: Vec<Token> = types
        .iter()
        .enumerate()
        .map(|(i, t)| Token { token_type: t.clone(), line: 7, column: 3 * i + 1 })
        .collect();
    assert_eq!(parse(&line_of(types)), parse(&spread));
}

// ----- token cursor -----

#[test]
fn token_cursor_operations() {
    let tokens = line_of(vec![ident("a"), TokenType::Equal]);
    let mut it = TokenIterator::new(&tokens);
    assert_eq!(it.peek_some().unwrap().token_type, ident("a"));
    assert_eq!(it.next_some().unwrap().token_type, ident("a"));
    assert_eq!(it.next_expected(TokenType::Add), Err(ParseError::UnexpectedToken { line: 1, column: 1 }));
    assert!(it.next().is_none());
    assert_eq!(it.peek_some(), Err(ParseError::UnexpectedEnd));
    assert_eq!(it.next_some(), Err(ParseError::UnexpectedEnd));
    assert_eq!(it.next_expected(TokenType::Add), Err(ParseError::UnexpectedEnd));
}

#[test]
fn create_token_stamps_the_start_position() {
    let lexer = Lexer::new("abc");
    let t = lexer.create_token(TokenType::Comma);
    assert_eq!((t.token_type, t.line, t.column), (TokenType::Comma, 1, 0));
}
