use indent_lang::lexer::tokenize;
use indent_lang::lexer::tokens::TokenType;

#[test]
fn test_empty() {
    let tokens = tokenize("").unwrap();

    assert_eq!(tokens.len(), 0);
}

#[test]
fn test_identifier() {
    let tokens = tokenize("hello").unwrap();

    assert_eq!(
        tokens,
        vec![
            TokenType::Identifier("hello".to_string()),
        ]
    )
}

#[test]
fn test_multiple_identifiers() {
    let tokens = tokenize("hello world").unwrap();

    assert_eq!(
        tokens,
        vec![
            TokenType::Identifier("hello".to_string()),
            TokenType::Identifier("world".to_string()),
        ]
    )
}

#[test]
fn test_newlines() {
    let tokens = tokenize("hello\nworld").unwrap();

    assert_eq!(
        tokens,
        vec![
            TokenType::Identifier("hello".to_string()),
            TokenType::EndLine,
            TokenType::Identifier("world".to_string()),
        ]
    );
}

#[test]
fn test_newlines_and_indent() {
    let tokens = tokenize("hello\n  world").unwrap();

    assert_eq!(
        tokens,
        vec![
            TokenType::Identifier("hello".to_string()),
            TokenType::EndLine,
            TokenType::NewLineIndent(2),
            TokenType::Identifier("world".to_string()),
        ]
    );
}

#[test]
fn test_if() {
    let tokens = tokenize("?test").unwrap();

    assert_eq!(
        tokens,
        vec![
            TokenType::If,
            TokenType::Identifier("test".to_string()),
        ]
    );
}

#[test]
fn test_if_else() {
    let tokens = tokenize("?test\n  hello\n:\n  world").unwrap();

    assert_eq!(
        tokens,
        vec![
            TokenType::If,
            TokenType::Identifier("test".to_string()),
            TokenType::EndLine,
            TokenType::NewLineIndent(2),
            TokenType::Identifier("hello".to_string()),
            TokenType::EndLine,
            TokenType::Else,
            TokenType::EndLine,
            TokenType::NewLineIndent(2),
            TokenType::Identifier("world".to_string()),
        ]
    );
}

#[test]
fn test_if_elseif_else() {
    let tokens = tokenize("?test1\n  hello\n:?\n  world\n  test2\n:\n  world").unwrap();

    assert_eq!(
        tokens,
        vec![
            TokenType::If,
            TokenType::Identifier("test1".to_string()),
            TokenType::EndLine,
            TokenType::NewLineIndent(2),
            TokenType::Identifier("hello".to_string()),
            TokenType::EndLine,
            TokenType::ElseIf,
            TokenType::EndLine,
            TokenType::NewLineIndent(2),
            TokenType::Identifier("world".to_string()),
            TokenType::EndLine,
            TokenType::NewLineIndent(2),
            TokenType::Identifier("test2".to_string()),
            TokenType::EndLine,
            TokenType::Else,
            TokenType::EndLine,
            TokenType::NewLineIndent(2),
            TokenType::Identifier("world".to_string()),
        ]
    );
}

#[test]
fn test_comment() {
    let tokens = tokenize("// this is a comment").unwrap();

    assert_eq!(
        tokens,
        vec![
            TokenType::Comment(" this is a comment".to_string()),
        ]
    );
}

#[test]
fn test_comment_block() {
    let tokens = tokenize("/* this is a comment block */").unwrap();

    assert_eq!(
        tokens,
        vec![
            TokenType::CommentBlock(" this is a comment block ".to_string()),
        ]
    );
}

#[test]
fn test_comment_block_with_newlines() {
    let tokens = tokenize("/* this is a comment block\nwith newlines */").unwrap();

    assert_eq!(
        tokens,
        vec![
            TokenType::CommentBlock(" this is a comment block\nwith newlines ".to_string()),
        ]
    );
}

#[test]
fn test_equal() {
    let tokens = tokenize("=").unwrap();

    assert_eq!(
        tokens,
        vec![
            TokenType::Equal,
        ]
    );
}

#[test]
fn test_not_equal() {
    let tokens = tokenize("!").unwrap();

    assert_eq!(
        tokens,
        vec![
            TokenType::NotEqual,
        ]
    );
}

#[test]
fn test_and() {
    let tokens = tokenize("&").unwrap();

    assert_eq!(
        tokens,
        vec![
            TokenType::And,
        ]
    );
}

#[test]
fn test_or() {
    let tokens = tokenize("|").unwrap();

    assert_eq!(
        tokens,
        vec![
            TokenType::Or,
        ]
    );
}

#[test]
fn test_greater() {
    let tokens = tokenize(">").unwrap();

    assert_eq!(
        tokens,
        vec![
            TokenType::Greater,
        ]
    );
}

#[test]
fn test_less() {
    let tokens = tokenize("<").unwrap();

    assert_eq!(
        tokens,
        vec![
            TokenType::Less,
        ]
    );
}

#[test]
fn test_greater_equal() {
    let tokens = tokenize(">=").unwrap();

    assert_eq!(
        tokens,
        vec![
            TokenType::GreaterEqual,
        ]
    );
}

#[test]
fn test_less_equal() {
    let tokens = tokenize("<=").unwrap();

    assert_eq!(
        tokens,
        vec![
            TokenType::LessEqual,
        ]
    );
}

#[test]
fn test_add() {
    let tokens = tokenize("+").unwrap();

    assert_eq!(
        tokens,
        vec![
            TokenType::Add,
        ]
    );
}

#[test]
fn test_subtract() {
    let tokens = tokenize("-").unwrap();

    assert_eq!(
        tokens,
        vec![
            TokenType::Subtract,
        ]
    );
}

#[test]
fn test_multiply() {
    let tokens = tokenize("*").unwrap();

    assert_eq!(
        tokens,
        vec![
            TokenType::Multiply,
        ]
    );
}

#[test]
fn test_divide() {
    let tokens = tokenize("/").unwrap();

    assert_eq!(
        tokens,
        vec![
            TokenType::Divide,
        ]
    );
}

#[test]
fn test_increment() {
    let tokens = tokenize("++").unwrap();

    assert_eq!(
        tokens,
        vec![
            TokenType::Increment,
        ]
    );
}

#[test]
fn test_decrement() {
    let tokens = tokenize("--").unwrap();

    assert_eq!(
        tokens,
        vec![
            TokenType::Decrement,
        ]
    );
}

#[test]
fn test_modulo() {
    let tokens = tokenize("%").unwrap();

    assert_eq!(
        tokens,
        vec![
            TokenType::Modulo,
        ]
    );
}

#[test]
fn test_parenthesis_open() {
    let tokens = tokenize("(").unwrap();

    assert_eq!(
        tokens,
        vec![
            TokenType::ParenthesisOpen,
        ]
    );
}

#[test]
fn test_parenthesis_close() {
    let tokens = tokenize(")").unwrap();

    assert_eq!(
        tokens,
        vec![
            TokenType::ParenthesisClose,
        ]
    );
}

#[test]
fn test_square_bracket_open() {
    let tokens = tokenize("[").unwrap();

    assert_eq!(
        tokens,
        vec![
            TokenType::SquareBracketOpen,
        ]
    );
}


#[test]
fn test_square_bracket_close() {
    let tokens = tokenize("]").unwrap();

    assert_eq!(
        tokens,
        vec![
            TokenType::SquareBracketClose,
        ]
    );
}

#[test]
fn test_comma() {
    let tokens = tokenize(",").unwrap();

    assert_eq!(
        tokens,
        vec![
            TokenType::Comma,
        ]
    );
}

#[test]
fn test_ascii_block() {
    let tokens = tokenize("ascii\nhello\nasciiend").unwrap();

    assert_eq!(
        tokens,
        vec![
            TokenType::AsciiBlock("hello".to_string()),
        ]
    );
}

#[test]
fn test_string() {
    let tokens = tokenize("\"hello\"").unwrap();

    assert_eq!(
        tokens,
        vec![
            TokenType::String("hello".to_string()),
        ]
    );
}
