pub mod assigment;
pub mod binary_operator;
pub mod block;
pub mod expression;
pub mod function;
pub mod primary;
pub mod value;

pub use binary_operator::parse_binary_operator;
pub use value::parse_expression_value;
