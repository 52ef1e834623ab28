//! Read-only inspection of a syntax tree: its outline as lines of text, one
//! node to a group of lines, the parts of a node four columns further in
//! than the node.
use vstd::prelude::*;
use crate::ast::{Expression, SpecExpression, SpecStatement, Statement};
use crate::numeral::{integer_text, integer_to_string};

verus! {

/// The characters of each line.
pub open spec fn lines_view(lines: Seq<String>) -> Seq<Seq<char>> {
    lines.map_values(|line: String| line@)
}

/// Four columns of space.
pub open spec fn margin() -> Seq<char> {
    "    "@
}

/// The lines, each four columns further in.
pub open spec fn indented(lines: Seq<Seq<char>>) -> Seq<Seq<char>> {
    lines.map_values(|line: Seq<char>| margin() + line)
}

/// The outline of an expression, its first line starting in the first
/// column.
pub open spec fn expression_lines(expression: SpecExpression) -> Seq<Seq<char>>
    decreases expression,
{
    match expression {
        SpecExpression::Identifier(name) => seq![
            "{ \"type\": \"Identifier\", \"name\": \""@ + name + "\" }"@,
        ],
        SpecExpression::NumberLiteral(value) => seq![
            "{ \"type\": \"NumberLiteral\", \"value\": "@ + integer_text(value as int) + " }"@,
        ],
        SpecExpression::Prefix { operator, right } => seq![
            "{ \"type\": \"Prefix\", \"operator\": \""@ + operator + "\","@,
            "  \"right\":"@,
        ] + indented(expression_lines(*right)) + seq!["}"@],
        SpecExpression::Infix { left, operator, right } => seq![
            "{ \"type\": \"Infix\", \"operator\": \""@ + operator + "\","@,
            "  \"left\":"@,
        ] + indented(expression_lines(*left)) + seq!["  \"right\":"@] + indented(
            expression_lines(*right),
        ) + seq!["}"@],
    }
}

/// The outline of a statement.
pub open spec fn statement_lines(statement: SpecStatement) -> Seq<Seq<char>> {
    match statement {
        SpecStatement::LetStatement { name, value } => seq![
            "{"@,
            "  \"type\": \"LetStatement\","@,
            "  \"name\": \""@ + name + "\","@,
            "  \"value\":"@,
        ] + indented(expression_lines(value)) + seq!["}"@],
        SpecStatement::ReturnStatement { value } => seq![
            "{"@,
            "  \"type\": \"ReturnStatement\","@,
            "  \"value\":"@,
        ] + indented(expression_lines(value)) + seq!["}"@],
        SpecStatement::ExpressionStatement(value) => seq![
            "{"@,
            "  \"type\": \"ExpressionStatement\","@,
            "  \"value\":"@,
        ] + indented(expression_lines(value)) + seq!["}"@],
    }
}

/// The text `before`, then `middle`, then `behind`.
fn framed(before: &str, middle: &str, behind: &str) -> (line: String)
    ensures
        line@ == before@ + middle@ + behind@,
{
    let mut line = String::from_str(before);
    line.append(middle);
    line.append(behind);
    line
}

/// Appends the lines of `block`, each four columns further in.
fn push_indented(lines: &mut Vec<String>, block: Vec<String>)
    ensures
        lines_view(final(lines)@) == lines_view(old(lines)@) + indented(lines_view(block@)),
{
    let mut i: usize = 0;
    while i < block.len()
        invariant
            i <= block.len(),
            lines_view(lines@) == lines_view(old(lines)@) + indented(lines_view(block@)).take(
                i as int,
            ),
        decreases block.len() - i,
    {
        let ghost before = lines_view(lines@);
        let mut line = String::from_str("    ");
        line.append(block[i].as_str());
        lines.push(line);
        assert(lines_view(lines@) =~= before.push(line@));
        i += 1;
    }
}

/// Appends one line.
fn push_line(lines: &mut Vec<String>, line: String)
    ensures
        lines_view(final(lines)@) == lines_view(old(lines)@) + seq![line@],
{
    lines.push(line);
}

impl Expression {
    /// The outline of the expression as lines of text.
    pub fn render(&self) -> (lines: Vec<String>)
        ensures
            lines_view(lines@) == expression_lines(self@),
        decreases self,
    {
        let mut lines: Vec<String> = Vec::new();
        match self {
            Expression::Identifier(name) => {
                push_line(
                    &mut lines,
                    framed("{ \"type\": \"Identifier\", \"name\": \"", name.as_str(), "\" }"),
                );
            },
            Expression::NumberLiteral(value) => {
                let digits = integer_to_string(*value);
                push_line(
                    &mut lines,
                    framed("{ \"type\": \"NumberLiteral\", \"value\": ", digits.as_str(), " }"),
                );
            },
            Expression::Prefix { operator, right } => {
                push_line(
                    &mut lines,
                    framed("{ \"type\": \"Prefix\", \"operator\": \"", operator.as_str(), "\","),
                );
                push_line(&mut lines, String::from_str("  \"right\":"));
                push_indented(&mut lines, right.render());
                push_line(&mut lines, String::from_str("}"));
            },
            Expression::Infix { left, operator, right } => {
                push_line(
                    &mut lines,
                    framed("{ \"type\": \"Infix\", \"operator\": \"", operator.as_str(), "\","),
                );
                push_line(&mut lines, String::from_str("  \"left\":"));
                push_indented(&mut lines, left.render());
                push_line(&mut lines, String::from_str("  \"right\":"));
                push_indented(&mut lines, right.render());
                push_line(&mut lines, String::from_str("}"));
            },
        }
        lines
    }
}

impl Statement {
    /// The outline of the statement as lines of text.
    pub fn render(&self) -> (lines: Vec<String>)
        ensures
            lines_view(lines@) == statement_lines(self@),
    {
        let mut lines: Vec<String> = Vec::new();
        push_line(&mut lines, String::from_str("{"));
        match self {
            Statement::LetStatement { name, value } => {
                push_line(&mut lines, String::from_str("  \"type\": \"LetStatement\","));
                push_line(&mut lines, framed("  \"name\": \"", name.as_str(), "\","));
                push_line(&mut lines, String::from_str("  \"value\":"));
                push_indented(&mut lines, value.render());
                push_line(&mut lines, String::from_str("}"));
            },
            Statement::ReturnStatement { value } => {
                push_line(&mut lines, String::from_str("  \"type\": \"ReturnStatement\","));
                push_line(&mut lines, String::from_str("  \"value\":"));
                push_indented(&mut lines, value.render());
                push_line(&mut lines, String::from_str("}"));
            },
            Statement::ExpressionStatement(value) => {
                push_line(&mut lines, String::from_str("  \"type\": \"ExpressionStatement\","));
                push_line(&mut lines, String::from_str("  \"value\":"));
                push_indented(&mut lines, value.render());
                push_line(&mut lines, String::from_str("}"));
            },
        }
        lines
    }
}

} // verus!
