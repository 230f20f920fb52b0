use vstd::prelude::*;

verus! {

/// A literal value. A decimal literal is kept as the text that spells it.
#[derive(Debug, PartialEq)]
pub enum Value {
    String(String),
    Decimal(String),
    Integer(i64),
}

#[derive(Debug, PartialEq, Eq, Structural, Clone, Copy)]
pub enum BinaryOperator {
    Add,
    Subtract,
    Multiply,
    Divide,
    Modulo,
    Equal,
    NotEqual,
    And,
    Or,
    Greater,
    Less,
    GreaterEqual,
    LessEqual,
}

#[derive(Debug, PartialEq, Eq, Structural, Clone, Copy)]
pub enum UnaryOperator {
    Negate,
    Increment,
    Decrement,
}

/// A node of the syntax tree; each node owns its children.
#[derive(Debug, PartialEq)]
#[allow(inconsistent_fields)]
pub enum Expression {
    Value(Value),
    Identifier(String),
    Binary { left: Box<Expression>, operator: BinaryOperator, right: Box<Expression> },
    Unary { operator: UnaryOperator, right: Box<Expression> },
    Assignment { name: String, value: Box<Expression> },
    Condition {
        condition: Box<Expression>,
        then_branch: Box<Expression>,
        else_branch: Option<Box<Expression>>,
    },
    Function { name: String, parameters: Vec<String>, body: Box<Expression> },
    Block { statements: Vec<Expression> },
    Nope,
}

/// The mathematical value of a `Value`.
pub enum SpecValue {
    String(Seq<char>),
    Decimal(Seq<char>),
    Integer(i64),
}

/// The mathematical value of an `Expression`.
#[allow(inconsistent_fields)]
pub enum SpecExpression {
    Value(SpecValue),
    Identifier(Seq<char>),
    Binary { left: Box<SpecExpression>, operator: BinaryOperator, right: Box<SpecExpression> },
    Unary { operator: UnaryOperator, right: Box<SpecExpression> },
    Assignment { name: Seq<char>, value: Box<SpecExpression> },
    Condition {
        condition: Box<SpecExpression>,
        then_branch: Box<SpecExpression>,
        else_branch: Option<Box<SpecExpression>>,
    },
    Function { name: Seq<char>, parameters: Seq<Seq<char>>, body: Box<SpecExpression> },
    Block { statements: Seq<SpecExpression> },
    Nope,
}

impl View for Value {
    type V = SpecValue;

    open spec fn view(&self) -> SpecValue {
        match self {
            Value::String(s) => SpecValue::String(s@),
            Value::Decimal(s) => SpecValue::Decimal(s@),
            Value::Integer(i) => SpecValue::Integer(*i),
        }
    }
}

pub open spec fn view_expression(e: Expression) -> SpecExpression
    decreases e,
{
    match e {
        Expression::Value(v) => SpecExpression::Value(v@),
        Expression::Identifier(name) => SpecExpression::Identifier(name@),
        Expression::Binary { left, operator, right } => SpecExpression::Binary {
            left: Box::new(view_expression(*left)),
            operator,
            right: Box::new(view_expression(*right)),
        },
        Expression::Unary { operator, right } => SpecExpression::Unary {
            operator,
            right: Box::new(view_expression(*right)),
        },
        Expression::Assignment { name, value } => SpecExpression::Assignment {
            name: name@,
            value: Box::new(view_expression(*value)),
        },
        Expression::Condition { condition, then_branch, else_branch } => SpecExpression::Condition {
            condition: Box::new(view_expression(*condition)),
            then_branch: Box::new(view_expression(*then_branch)),
            else_branch: match else_branch {
                Some(b) => Some(Box::new(view_expression(*b))),
                None => None,
            },
        },
        Expression::Function { name, parameters, body } => SpecExpression::Function {
            name: name@,
            parameters: view_strings(parameters@),
            body: Box::new(view_expression(*body)),
        },
        Expression::Block { statements } => SpecExpression::Block {
            statements: view_expressions(statements@),
        },
        Expression::Nope => SpecExpression::Nope,
    }
}

/// The texts of a sequence of strings.
pub open spec fn view_strings(s: Seq<String>) -> Seq<Seq<char>> {
    s.map_values(|x: String| x@)
}

pub open spec fn view_expressions(s: Seq<Expression>) -> Seq<SpecExpression>
    decreases s,
{
    if s.len() == 0 {
        Seq::empty()
    } else {
        view_expressions(s.drop_last()).push(view_expression(s.last()))
    }
}

impl View for Expression {
    type V = SpecExpression;

    open spec fn view(&self) -> SpecExpression {
        view_expression(*self)
    }
}

} // verus!
