use vstd::prelude::*;

use crate::lexer::tokens::{SpecTokenType, Token, TokenType};
use crate::parser::structs::BinaryOperator;

verus! {

/// The binary operator that a token kind denotes, if it denotes one.
pub open spec fn binary_operator_of(kind: SpecTokenType) -> Option<BinaryOperator> {
    match kind {
        SpecTokenType::Add => Some(BinaryOperator::Add),
        SpecTokenType::Subtract => Some(BinaryOperator::Subtract),
        SpecTokenType::Multiply => Some(BinaryOperator::Multiply),
        SpecTokenType::Divide => Some(BinaryOperator::Divide),
        SpecTokenType::Modulo => Some(BinaryOperator::Modulo),
        SpecTokenType::Equal => Some(BinaryOperator::Equal),
        SpecTokenType::NotEqual => Some(BinaryOperator::NotEqual),
        SpecTokenType::And => Some(BinaryOperator::And),
        SpecTokenType::Or => Some(BinaryOperator::Or),
        SpecTokenType::Greater => Some(BinaryOperator::Greater),
        SpecTokenType::Less => Some(BinaryOperator::Less),
        SpecTokenType::GreaterEqual => Some(BinaryOperator::GreaterEqual),
        SpecTokenType::LessEqual => Some(BinaryOperator::LessEqual),
        _ => None,
    }
}

/// The binary operator of a token that denotes one.
pub fn parse_binary_operator(token: &Token) -> (r: BinaryOperator)
    requires
        binary_operator_of(token.token_type@) is Some,
    ensures
        binary_operator_of(token.token_type@) == Some(r),
{
    match token.token_type {
        TokenType::Add => BinaryOperator::Add,
        TokenType::Subtract => BinaryOperator::Subtract,
        TokenType::Multiply => BinaryOperator::Multiply,
        TokenType::Divide => BinaryOperator::Divide,
        TokenType::Modulo => BinaryOperator::Modulo,
        TokenType::Equal => BinaryOperator::Equal,
        TokenType::NotEqual => BinaryOperator::NotEqual,
        TokenType::And => BinaryOperator::And,
        TokenType::Or => BinaryOperator::Or,
        TokenType::Greater => BinaryOperator::Greater,
        TokenType::Less => BinaryOperator::Less,
        TokenType::GreaterEqual => BinaryOperator::GreaterEqual,
        _ => BinaryOperator::LessEqual,
    }
}

} // verus!
