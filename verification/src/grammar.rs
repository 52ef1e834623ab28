//! The grammar as a function on token sequences: which tree a sequence of
//! tokens stands for, and which tokens are left behind it.
//!
//! A sequence holds the tokens up to the end of input, `EOF` not among them:
//! past its end every token is `EOF`.
use vstd::prelude::*;
use crate::ast::{node_count, SpecExpression, SpecStatement};
use crate::lexer::SpecToken;
use crate::numeral::integer_literal;

verus! {

/// How tightly an operator binds, from the loosest to the tightest. `Call`
/// is held for calls, which the grammar does not have yet.
#[derive(Debug, Clone, Copy, PartialEq, Eq, Structural)]
pub enum Precedence {
    Lowest,
    Equals,
    LessGreater,
    Sum,
    Product,
    Prefix,
    Call,
}

impl Precedence {
    /// The place of a precedence in the order: a higher rank binds tighter.
    pub open spec fn rank(self) -> int {
        match self {
            Precedence::Lowest => 0,
            Precedence::Equals => 1,
            Precedence::LessGreater => 2,
            Precedence::Sum => 3,
            Precedence::Product => 4,
            Precedence::Prefix => 5,
            Precedence::Call => 6,
        }
    }

    /// The rank of the precedence.
    pub fn level(self) -> (level: u8)
        ensures
            level == self.rank(),
    {
        match self {
            Precedence::Lowest => 0,
            Precedence::Equals => 1,
            Precedence::LessGreater => 2,
            Precedence::Sum => 3,
            Precedence::Product => 4,
            Precedence::Prefix => 5,
            Precedence::Call => 6,
        }
    }
}

/// Why parsing stopped for good.
pub enum SpecParseError {
    /// A parenthesized expression was not followed by `)` but by `found`.
    UnclosedParen { found: SpecToken },
}

/// What one step of the parser yields: its result, and the tokens from the
/// one it stopped at.
pub struct Parsed<T> {
    pub result: Result<T, SpecParseError>,
    pub rest: Seq<SpecToken>,
}

/// The token the parser looks at.
pub open spec fn current(tokens: Seq<SpecToken>) -> SpecToken {
    if tokens.len() > 0 {
        tokens[0]
    } else {
        SpecToken::EOF
    }
}

/// The token after the current one.
pub open spec fn lookahead(tokens: Seq<SpecToken>) -> SpecToken {
    if tokens.len() > 1 {
        tokens[1]
    } else {
        SpecToken::EOF
    }
}

/// The tokens after one step forward. At the end of input nothing moves.
pub open spec fn advance(tokens: Seq<SpecToken>) -> Seq<SpecToken> {
    if tokens.len() > 0 {
        tokens.drop_first()
    } else {
        tokens
    }
}

/// `rest`, which the parser has reached from `tokens`. Tokens are only ever
/// consumed, so `rest` is never the longer one (`lemma_expression_rest`);
/// the test is here for the definitions below to be seen to terminate.
pub open spec fn reached(rest: Seq<SpecToken>, tokens: Seq<SpecToken>) -> Seq<SpecToken> {
    if rest.len() <= tokens.len() {
        rest
    } else {
        tokens
    }
}

/// The precedence of a token as an operator between two operands.
pub open spec fn precedence_of(token: SpecToken) -> Precedence {
    match token {
        SpecToken::Equal | SpecToken::NotEqual => Precedence::Equals,
        SpecToken::LessThan | SpecToken::GreaterThan => Precedence::LessGreater,
        SpecToken::Plus | SpecToken::Minus => Precedence::Sum,
        SpecToken::Asterisk | SpecToken::Slash => Precedence::Product,
        _ => Precedence::Lowest,
    }
}

/// The operator that a token is between two operands, if the grammar has
/// it there.
pub open spec fn infix_operator(token: SpecToken) -> Option<Seq<char>> {
    match token {
        SpecToken::Plus => Some("+"@),
        SpecToken::Minus => Some("-"@),
        SpecToken::Asterisk => Some("*"@),
        SpecToken::Slash => Some("/"@),
        SpecToken::LessThan => Some("<"@),
        SpecToken::GreaterThan => Some(">"@),
        _ => None,
    }
}

/// The operator that a token is before an operand, if it is one.
pub open spec fn prefix_operator(token: SpecToken) -> Option<Seq<char>> {
    match token {
        SpecToken::Bang => Some("!"@),
        SpecToken::Minus => Some("-"@),
        _ => None,
    }
}

/// An expression that starts at the current token and takes in every
/// operator that binds tighter than `precedence`.
///
/// An identifier or a number stands for itself; a number that no signed
/// 64-bit integer holds stands for nothing. `!` and `-` apply to the operand
/// after them, which takes in nothing that binds looser than a prefix
/// operator. `(` opens an expression that must be followed by `)`. Any other
/// token starts no expression, and is left where it is.
pub open spec fn expression(tokens: Seq<SpecToken>, precedence: Precedence) -> Parsed<
    Option<SpecExpression>,
>
    decreases tokens.len(), 1nat,
{
    match current(tokens) {
        SpecToken::Ident(name) => infix(SpecExpression::Identifier(name), tokens, precedence),
        SpecToken::Number(text) => match integer_literal(text) {
            Some(value) => infix(SpecExpression::NumberLiteral(value), tokens, precedence),
            None => Parsed { result: Ok(None), rest: tokens },
        },
        SpecToken::Bang | SpecToken::Minus => {
            let operand = expression(advance(tokens), Precedence::Prefix);
            match operand.result {
                Ok(Some(right)) => infix(
                    SpecExpression::Prefix {
                        operator: prefix_operator(current(tokens))->0,
                        right: Box::new(right),
                    },
                    reached(operand.rest, advance(tokens)),
                    precedence,
                ),
                _ => operand,
            }
        },
        SpecToken::LParen => {
            let inner = expression(advance(tokens), Precedence::Lowest);
            let closing = reached(inner.rest, advance(tokens));
            match inner.result {
                Ok(node) => if lookahead(closing) is RParen {
                    match node {
                        Some(left) => infix(left, advance(closing), precedence),
                        None => Parsed { result: Ok(None), rest: advance(closing) },
                    }
                } else {
                    Parsed {
                        result: Err(SpecParseError::UnclosedParen { found: lookahead(closing) }),
                        rest: closing,
                    }
                },
                Err(_) => inner,
            }
        },
        _ => Parsed { result: Ok(None), rest: tokens },
    }
}

/// The expression that `left` grows into: while the token after the current
/// one is one of `+ - * / < >` and binds tighter than `precedence`, it is
/// taken in with the operand after it, and what was there becomes the left
/// side. Operators of one precedence so group from the left. An operand that
/// is not there leaves no expression at all.
pub open spec fn infix(left: SpecExpression, tokens: Seq<SpecToken>, precedence: Precedence) -> Parsed<
    Option<SpecExpression>,
>
    decreases tokens.len(), 0nat,
{
    let token = lookahead(tokens);
    if infix_operator(token) is Some && precedence.rank() < precedence_of(token).rank() {
        let start = advance(advance(tokens));
        let operand = expression(start, precedence_of(token));
        match operand.result {
            Ok(Some(right)) => infix(
                SpecExpression::Infix {
                    left: Box::new(left),
                    operator: infix_operator(token)->0,
                    right: Box::new(right),
                },
                reached(operand.rest, start),
                precedence,
            ),
            _ => operand,
        }
    } else {
        Parsed { result: Ok(Some(left)), rest: tokens }
    }
}

/// The tokens behind a statement: a semicolon after it belongs to it.
pub open spec fn end_of_statement(tokens: Seq<SpecToken>) -> Seq<SpecToken> {
    if lookahead(tokens) is Semicolon {
        advance(tokens)
    } else {
        tokens
    }
}

/// A `let` statement at the current token. The token after `let` must be an
/// identifier, or there is no statement and nothing is consumed. The token
/// after the identifier is passed over unseen, and the value starts behind
/// it.
pub open spec fn let_statement(tokens: Seq<SpecToken>) -> Parsed<Option<SpecStatement>> {
    match lookahead(tokens) {
        SpecToken::Ident(name) => {
            let value = expression(advance(advance(advance(tokens))), Precedence::Lowest);
            match value.result {
                Ok(Some(value_node)) => Parsed {
                    result: Ok(Some(SpecStatement::LetStatement { name, value: value_node })),
                    rest: end_of_statement(value.rest),
                },
                Ok(None) => Parsed { result: Ok(None), rest: value.rest },
                Err(error) => Parsed { result: Err(error), rest: value.rest },
            }
        },
        _ => Parsed { result: Ok(None), rest: tokens },
    }
}

/// A `return` statement at the current token.
pub open spec fn return_statement(tokens: Seq<SpecToken>) -> Parsed<Option<SpecStatement>> {
    let value = expression(advance(tokens), Precedence::Lowest);
    match value.result {
        Ok(Some(value_node)) => Parsed {
            result: Ok(Some(SpecStatement::ReturnStatement { value: value_node })),
            rest: end_of_statement(value.rest),
        },
        Ok(None) => Parsed { result: Ok(None), rest: value.rest },
        Err(error) => Parsed { result: Err(error), rest: value.rest },
    }
}

/// An expression statement at the current token.
pub open spec fn expression_statement(tokens: Seq<SpecToken>) -> Parsed<Option<SpecStatement>> {
    let value = expression(tokens, Precedence::Lowest);
    match value.result {
        Ok(Some(value_node)) => Parsed {
            result: Ok(Some(SpecStatement::ExpressionStatement(value_node))),
            rest: end_of_statement(value.rest),
        },
        Ok(None) => Parsed { result: Ok(None), rest: value.rest },
        Err(error) => Parsed { result: Err(error), rest: value.rest },
    }
}

/// The statement at the current token, if there is one: the result is
/// `Ok(None)` where the tokens do not make a statement.
pub open spec fn statement(tokens: Seq<SpecToken>) -> Parsed<Option<SpecStatement>> {
    match current(tokens) {
        SpecToken::Let => let_statement(tokens),
        SpecToken::Return => return_statement(tokens),
        _ => expression_statement(tokens),
    }
}

/// The statements of a program, in order. After each attempt at a
/// statement, whether it made one or not, the parser steps one token
/// forward. The first fatal error ends the program, with the tokens from
/// where it was met.
pub open spec fn program(tokens: Seq<SpecToken>) -> Parsed<Seq<SpecStatement>>
    decreases tokens.len(),
{
    if tokens.len() == 0 {
        Parsed { result: Ok(Seq::empty()), rest: tokens }
    } else {
        let first = statement(tokens);
        match first.result {
            Ok(node) => {
                let others = program(advance(reached(first.rest, tokens)));
                match others.result {
                    Ok(statements) => Parsed {
                        result: Ok(
                            match node {
                                Some(made) => seq![made] + statements,
                                None => statements,
                            },
                        ),
                        rest: others.rest,
                    },
                    Err(_) => others,
                }
            },
            Err(error) => Parsed { result: Err(error), rest: first.rest },
        }
    }
}

/// The parser only moves forward: an expression leaves no more tokens than
/// it was given.
pub proof fn lemma_expression_rest(tokens: Seq<SpecToken>, precedence: Precedence)
    ensures
        expression(tokens, precedence).rest.len() <= tokens.len(),
    decreases tokens.len(), 1nat,
{
    match current(tokens) {
        SpecToken::Ident(name) => {
            lemma_infix_rest(SpecExpression::Identifier(name), tokens, precedence);
        },
        SpecToken::Number(text) => {
            if let Some(value) = integer_literal(text) {
                lemma_infix_rest(SpecExpression::NumberLiteral(value), tokens, precedence);
            }
        },
        SpecToken::Bang | SpecToken::Minus => {
            lemma_expression_rest(advance(tokens), Precedence::Prefix);
            let operand = expression(advance(tokens), Precedence::Prefix);
            if let Ok(Some(right)) = operand.result {
                lemma_infix_rest(
                    SpecExpression::Prefix {
                        operator: prefix_operator(current(tokens))->0,
                        right: Box::new(right),
                    },
                    reached(operand.rest, advance(tokens)),
                    precedence,
                );
            }
        },
        SpecToken::LParen => {
            lemma_expression_rest(advance(tokens), Precedence::Lowest);
            let inner = expression(advance(tokens), Precedence::Lowest);
            let closing = reached(inner.rest, advance(tokens));
            if let Ok(Some(left)) = inner.result {
                if lookahead(closing) is RParen {
                    lemma_infix_rest(left, advance(closing), precedence);
                }
            }
        },
        _ => {},
    }
}

/// The parser only moves forward: growing an expression leaves no more
/// tokens than it was given.
pub proof fn lemma_infix_rest(left: SpecExpression, tokens: Seq<SpecToken>, precedence: Precedence)
    ensures
        infix(left, tokens, precedence).rest.len() <= tokens.len(),
    decreases tokens.len(), 0nat,
{
    let token = lookahead(tokens);
    if infix_operator(token) is Some && precedence.rank() < precedence_of(token).rank() {
        let start = advance(advance(tokens));
        lemma_expression_rest(start, precedence_of(token));
        let operand = expression(start, precedence_of(token));
        if let Ok(Some(right)) = operand.result {
            lemma_infix_rest(
                SpecExpression::Infix {
                    left: Box::new(left),
                    operator: infix_operator(token)->0,
                    right: Box::new(right),
                },
                reached(operand.rest, start),
                precedence,
            );
        }
    }
}

/// The parser only moves forward: a statement leaves no more tokens than it
/// was given.
pub proof fn lemma_statement_rest(tokens: Seq<SpecToken>)
    ensures
        statement(tokens).rest.len() <= tokens.len(),
{
    lemma_expression_rest(tokens, Precedence::Lowest);
    lemma_expression_rest(advance(tokens), Precedence::Lowest);
    lemma_expression_rest(advance(advance(advance(tokens))), Precedence::Lowest);
}

/// A tree is bounded by its input: the parser stops at the last token of
/// an expression, and the expression has no more nodes than it has tokens up
/// to that one. So no tree has more nodes than there are tokens.
pub proof fn lemma_expression_size(tokens: Seq<SpecToken>, precedence: Precedence)
    ensures
        match expression(tokens, precedence).result {
            Ok(Some(node)) => {
                &&& 1 <= expression(tokens, precedence).rest.len()
                &&& node_count(node) + expression(tokens, precedence).rest.len() <= tokens.len()
                    + 1
                &&& node_count(node) <= tokens.len()
            },
            _ => true,
        },
    decreases tokens.len(), 1nat,
{
    match current(tokens) {
        SpecToken::Ident(name) => {
            lemma_infix_size(SpecExpression::Identifier(name), tokens, precedence);
        },
        SpecToken::Number(text) => {
            if let Some(value) = integer_literal(text) {
                lemma_infix_size(SpecExpression::NumberLiteral(value), tokens, precedence);
            }
        },
        SpecToken::Bang | SpecToken::Minus => {
            lemma_expression_rest(advance(tokens), Precedence::Prefix);
            lemma_expression_size(advance(tokens), Precedence::Prefix);
            let operand = expression(advance(tokens), Precedence::Prefix);
            if let Ok(Some(right)) = operand.result {
                lemma_infix_size(
                    SpecExpression::Prefix {
                        operator: prefix_operator(current(tokens))->0,
                        right: Box::new(right),
                    },
                    reached(operand.rest, advance(tokens)),
                    precedence,
                );
            }
        },
        SpecToken::LParen => {
            lemma_expression_rest(advance(tokens), Precedence::Lowest);
            lemma_expression_size(advance(tokens), Precedence::Lowest);
            let inner = expression(advance(tokens), Precedence::Lowest);
            let closing = reached(inner.rest, advance(tokens));
            if let Ok(Some(left)) = inner.result {
                if lookahead(closing) is RParen {
                    lemma_infix_size(left, advance(closing), precedence);
                }
            }
        },
        _ => {},
    }
}

/// An expression grows by no more nodes than it takes tokens.
pub proof fn lemma_infix_size(left: SpecExpression, tokens: Seq<SpecToken>, precedence: Precedence)
    requires
        1 <= tokens.len(),
    ensures
        match infix(left, tokens, precedence).result {
            Ok(Some(node)) => {
                &&& 1 <= infix(left, tokens, precedence).rest.len()
                &&& node_count(node) + infix(left, tokens, precedence).rest.len() <= node_count(
                    left,
                ) + tokens.len()
            },
            _ => true,
        },
    decreases tokens.len(), 0nat,
{
    let token = lookahead(tokens);
    if infix_operator(token) is Some && precedence.rank() < precedence_of(token).rank() {
        let start = advance(advance(tokens));
        lemma_expression_rest(start, precedence_of(token));
        lemma_expression_size(start, precedence_of(token));
        let operand = expression(start, precedence_of(token));
        if let Ok(Some(right)) = operand.result {
            lemma_infix_size(
                SpecExpression::Infix {
                    left: Box::new(left),
                    operator: infix_operator(token)->0,
                    right: Box::new(right),
                },
                reached(operand.rest, start),
                precedence,
            );
        }
    }
}

/// A program that meets nothing fatal is parsed to the end of input: no
/// token is left.
pub proof fn lemma_program_reaches_the_end(tokens: Seq<SpecToken>)
    requires
        program(tokens).result is Ok,
    ensures
        program(tokens).rest.len() == 0,
    decreases tokens.len(),
{
    if tokens.len() > 0 {
        lemma_statement_rest(tokens);
        lemma_program_reaches_the_end(advance(reached(statement(tokens).rest, tokens)));
    }
}

/// The precedences are in one strict order, from `Lowest` to `Call`.
pub proof fn lemma_precedences_are_ordered()
    ensures
        Precedence::Lowest.rank() < Precedence::Equals.rank() < Precedence::LessGreater.rank()
            < Precedence::Sum.rank() < Precedence::Product.rank() < Precedence::Prefix.rank()
            < Precedence::Call.rank(),
{
}

} // verus!
