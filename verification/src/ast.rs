//! The syntax tree: statements and expressions, as data only.
use vstd::prelude::*;

verus! {

/// A statement of a program.
#[derive(Debug, PartialEq)]
pub enum Statement {
    LetStatement { name: String, value: Expression },
    ReturnStatement { value: Expression },
    ExpressionStatement(Expression),
}

/// An expression. Each node owns its operands.
#[derive(Debug, PartialEq)]
pub enum Expression {
    Identifier(String),
    NumberLiteral(i64),
    Prefix { operator: String, right: Box<Expression> },
    Infix { left: Box<Expression>, operator: String, right: Box<Expression> },
}

/// An expression as a mathematical value: names and operators are sequences
/// of characters.
pub enum SpecExpression {
    Identifier(Seq<char>),
    NumberLiteral(i64),
    Prefix { operator: Seq<char>, right: Box<SpecExpression> },
    Infix { left: Box<SpecExpression>, operator: Seq<char>, right: Box<SpecExpression> },
}

/// A statement as a mathematical value.
pub enum SpecStatement {
    LetStatement { name: Seq<char>, value: SpecExpression },
    ReturnStatement { value: SpecExpression },
    ExpressionStatement(SpecExpression),
}

/// The mathematical value of an expression.
pub open spec fn expression_view(expression: Expression) -> SpecExpression
    decreases expression,
{
    match expression {
        Expression::Identifier(name) => SpecExpression::Identifier(name@),
        Expression::NumberLiteral(value) => SpecExpression::NumberLiteral(value),
        Expression::Prefix { operator, right } => SpecExpression::Prefix {
            operator: operator@,
            right: Box::new(expression_view(*right)),
        },
        Expression::Infix { left, operator, right } => SpecExpression::Infix {
            left: Box::new(expression_view(*left)),
            operator: operator@,
            right: Box::new(expression_view(*right)),
        },
    }
}

impl View for Expression {
    type V = SpecExpression;

    open spec fn view(&self) -> SpecExpression {
        expression_view(*self)
    }
}

impl View for Statement {
    type V = SpecStatement;

    open spec fn view(&self) -> SpecStatement {
        match self {
            Statement::LetStatement { name, value } => SpecStatement::LetStatement {
                name: name@,
                value: value@,
            },
            Statement::ReturnStatement { value } => SpecStatement::ReturnStatement {
                value: value@,
            },
            Statement::ExpressionStatement(value) => SpecStatement::ExpressionStatement(value@),
        }
    }
}

/// The number of nodes of an expression.
pub open spec fn node_count(expression: SpecExpression) -> nat
    decreases expression,
{
    match expression {
        SpecExpression::Identifier(_) => 1,
        SpecExpression::NumberLiteral(_) => 1,
        SpecExpression::Prefix { operator, right } => 1 + node_count(*right),
        SpecExpression::Infix { left, operator, right } => 1 + node_count(*left) + node_count(
            *right,
        ),
    }
}

impl Clone for Expression {
    fn clone(&self) -> (copy: Self)
        ensures
            copy@ == self@,
        decreases self,
    {
        match self {
            Expression::Identifier(name) => Expression::Identifier(name.clone()),
            Expression::NumberLiteral(value) => Expression::NumberLiteral(*value),
            Expression::Prefix { operator, right } => Expression::Prefix {
                operator: operator.clone(),
                right: Box::new((&**right).clone()),
            },
            Expression::Infix { left, operator, right } => Expression::Infix {
                left: Box::new((&**left).clone()),
                operator: operator.clone(),
                right: Box::new((&**right).clone()),
            },
        }
    }
}

impl Clone for Statement {
    fn clone(&self) -> (copy: Self)
        ensures
            copy@ == self@,
    {
        match self {
            Statement::LetStatement { name, value } => Statement::LetStatement {
                name: name.clone(),
                value: value.clone(),
            },
            Statement::ReturnStatement { value } => Statement::ReturnStatement {
                value: value.clone(),
            },
            Statement::ExpressionStatement(value) => Statement::ExpressionStatement(
                value.clone(),
            ),
        }
    }
}

/// The statements of a program as mathematical values, in order.
pub open spec fn program_view(statements: Seq<Statement>) -> Seq<SpecStatement> {
    statements.map_values(|statement: Statement| statement@)
}

} // verus!
