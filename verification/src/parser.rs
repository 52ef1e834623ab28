//! The parser: from the tokens of a tokenizer to the statements of a
//! program, by precedence climbing with one token of lookahead.
use vstd::prelude::*;
use vstd::pervasive::unreached;
use crate::ast::{program_view, Expression, SpecExpression, SpecStatement, Statement};
use crate::grammar::{
    advance, current, end_of_statement, expression, expression_statement, infix, infix_operator,
    let_statement, lemma_expression_rest, lemma_program_reaches_the_end, lemma_statement_rest,
    lookahead, precedence_of, prefix_operator, program, return_statement, statement, Parsed,
    Precedence, SpecParseError,
};
use crate::lexer::{Lexer, SpecToken, Token};
use crate::numeral::parse_integer;

verus! {

/// Why parsing stopped for good.
#[derive(Debug, PartialEq)]
pub enum ParseError {
    /// A parenthesized expression was not followed by `)` but by `found`.
    UnclosedParen { found: Token },
}

impl View for ParseError {
    type V = SpecParseError;

    open spec fn view(&self) -> SpecParseError {
        match self {
            ParseError::UnclosedParen { found } => SpecParseError::UnclosedParen {
                found: found@,
            },
        }
    }
}

/// The result of parsing an expression as a mathematical value.
pub open spec fn expression_result(result: Result<Option<Expression>, ParseError>) -> Result<
    Option<SpecExpression>,
    SpecParseError,
> {
    match result {
        Ok(Some(node)) => Ok(Some(node@)),
        Ok(None) => Ok(None),
        Err(error) => Err(error@),
    }
}

/// The result of parsing a statement as a mathematical value.
pub open spec fn statement_result(result: Result<Option<Statement>, ParseError>) -> Result<
    Option<SpecStatement>,
    SpecParseError,
> {
    match result {
        Ok(Some(node)) => Ok(Some(node@)),
        Ok(None) => Ok(None),
        Err(error) => Err(error@),
    }
}

/// The result of parsing a program as a mathematical value.
pub open spec fn program_result(result: Result<Vec<Statement>, ParseError>) -> Result<
    Seq<SpecStatement>,
    SpecParseError,
> {
    match result {
        Ok(statements) => Ok(program_view(statements@)),
        Err(error) => Err(error@),
    }
}

/// The tokens a parser has before it: the two it holds, then those its
/// tokenizer has left, all up to the end of input.
pub open spec fn pending(first: SpecToken, second: SpecToken, others: Seq<SpecToken>) -> Seq<
    SpecToken,
> {
    if first is EOF {
        Seq::empty()
    } else if second is EOF {
        seq![first]
    } else {
        seq![first, second] + others
    }
}

/// What a program is once the statements `done` stand before it.
pub open spec fn after(done: Seq<SpecStatement>, others: Parsed<Seq<SpecStatement>>) -> Parsed<
    Seq<SpecStatement>,
> {
    Parsed {
        result: match others.result {
            Ok(statements) => Ok(done + statements),
            Err(error) => Err(error),
        },
        rest: others.rest,
    }
}

/// A parser over the tokens of one tokenizer. It holds two tokens at a
/// time: the current one and the one after it.
pub struct Parser {
    lexer: Lexer,
    current_token: Token,
    next_token: Token,
}

impl View for Parser {
    type V = Seq<SpecToken>;

    /// The tokens that are still to be parsed, from the current one to the
    /// end of input.
    closed spec fn view(&self) -> Seq<SpecToken> {
        pending(self.current_token@, self.next_token@, self.lexer.remaining())
    }
}

impl Parser {
    /// The tokenizer is well formed, and once a token is `EOF` so is every
    /// token after it.
    pub closed spec fn wf(&self) -> bool {
        &&& self.lexer.wf()
        &&& self.current_token@ is EOF ==> self.next_token@ is EOF
        &&& self.next_token@ is EOF ==> self.lexer.remaining().len() == 0
    }

    /// The two tokens the parser holds are the first two of those before
    /// it.
    proof fn lemma_tokens(&self)
        requires
            self.wf(),
        ensures
            current(self@) == self.current_token@,
            lookahead(self@) == self.next_token@,
    {
    }

    /// A parser of the tokens that `lexer` has left.
    pub fn new(lexer: Lexer) -> (parser: Self)
        requires
            lexer.wf(),
        ensures
            parser.wf(),
            parser@ == lexer.remaining(),
    {
        let mut lexer = lexer;
        let current_token = lexer.next_token();
        let next_token = lexer.next_token();
        Parser { lexer, current_token, next_token }
    }

    /// Steps one token forward.
    fn advance_tokens(&mut self)
        requires
            old(self).wf(),
        ensures
            final(self).wf(),
            final(self)@ == advance(old(self)@),
    {
        let mut token = self.lexer.next_token();
        core::mem::swap(&mut self.next_token, &mut token);
        self.current_token = token;
    }

    /// Whether the token after the current one is an operator that an
    /// expression of this precedence takes in.
    fn takes_operator(&self, precedence: Precedence) -> (takes: bool)
        requires
            self.wf(),
        ensures
            takes == (infix_operator(lookahead(self@)) is Some && precedence.rank()
                < precedence_of(lookahead(self@)).rank()),
    {
        proof {
            self.lemma_tokens();
        }
        match &self.next_token {
            Token::Plus
            | Token::Minus
            | Token::Asterisk
            | Token::Slash
            | Token::LessThan
            | Token::GreaterThan => precedence.level() < Self::get_precedence(
                &self.next_token,
            ).level(),
            _ => false,
        }
    }

    /// Parses the statements up to the end of input. Tokens that make no
    /// statement are passed over. A parenthesis that is not closed ends the
    /// parsing, with the parser left where it found that.
    pub fn try_parse_program(&mut self) -> (result: Result<Vec<Statement>, ParseError>)
        requires
            old(self).wf(),
        ensures
            final(self).wf(),
            (Parsed { result: program_result(result), rest: final(self)@ }) == program(
                old(self)@,
            ),
            result is Ok ==> final(self)@.len() == 0,
    {
        proof {
            if program(self@).result is Ok {
                lemma_program_reaches_the_end(self@);
            }
        }
        let mut statements: Vec<Statement> = Vec::new();
        while !self.at_end()
            invariant
                self.wf(),
                after(program_view(statements@), program(self@)) == program(old(self)@),
            decreases self@.len(),
        {
            let ghost before = self@;
            let ghost done = program_view(statements@);
            proof {
                lemma_statement_rest(before);
            }
            match self.parse_statement() {
                Ok(Some(made)) => {
                    statements.push(made);
                    assert(program_view(statements@) =~= done + seq![made@]);
                },
                Ok(None) => {},
                Err(error) => {
                    return Err(error);
                },
            }
            self.advance_tokens();
            proof {
                let others = program(self@);
                if let Ok(more) = others.result {
                    assert((done + seq![statement(before).result->Ok_0->0]) + more =~= done + (
                        seq![statement(before).result->Ok_0->0] + more));
                }
            }
        }
        Ok(statements)
    }

    /// Parses the statements up to the end of input, where nothing on the
    /// way is fatal.
    pub fn parse_program(&mut self) -> (statements: Vec<Statement>)
        requires
            old(self).wf(),
            program(old(self)@).result is Ok,
        ensures
            final(self).wf(),
            program(old(self)@).result == Ok::<Seq<SpecStatement>, SpecParseError>(
                program_view(statements@),
            ),
            final(self)@.len() == 0,
    {
        proof {
            lemma_program_reaches_the_end(self@);
        }
        match self.try_parse_program() {
            Ok(statements) => statements,
            Err(_) => unreached(),
        }
    }

    /// Whether the current token is the end of input.
    fn at_end(&self) -> (end: bool)
        requires
            self.wf(),
        ensures
            end == (self@.len() == 0),
    {
        match &self.current_token {
            Token::EOF => true,
            _ => false,
        }
    }

    /// Parses the statement at the current token, if there is one.
    fn parse_statement(&mut self) -> (result: Result<Option<Statement>, ParseError>)
        requires
            old(self).wf(),
        ensures
            final(self).wf(),
            (Parsed { result: statement_result(result), rest: final(self)@ }) == statement(
                old(self)@,
            ),
    {
        proof {
            self.lemma_tokens();
        }
        match &self.current_token {
            Token::Let => self.parse_let_statement(),
            Token::Return => self.parse_return_statement(),
            _ => self.parse_expression_statement(),
        }
    }

    /// Passes over a semicolon after a statement.
    fn skip_semicolon(&mut self)
        requires
            old(self).wf(),
        ensures
            final(self).wf(),
            final(self)@ == end_of_statement(old(self)@),
    {
        proof {
            self.lemma_tokens();
        }
        let found = match &self.next_token {
            Token::Semicolon => true,
            _ => false,
        };
        if found {
            self.advance_tokens();
        }
    }

    /// Parses a `let` statement: the current token is `let`.
    fn parse_let_statement(&mut self) -> (result: Result<Option<Statement>, ParseError>)
        requires
            old(self).wf(),
        ensures
            final(self).wf(),
            (Parsed { result: statement_result(result), rest: final(self)@ }) == let_statement(
                old(self)@,
            ),
    {
        proof {
            self.lemma_tokens();
        }
        let name = match &self.next_token {
            Token::Ident(ident) => ident.clone(),
            _ => {
                return Ok(None);
            },
        };
        self.advance_tokens();
        self.advance_tokens();
        self.advance_tokens();
        match self.parse_expression(Precedence::Lowest) {
            Ok(Some(value)) => {
                self.skip_semicolon();
                Ok(Some(Statement::LetStatement { name, value }))
            },
            Ok(None) => Ok(None),
            Err(error) => Err(error),
        }
    }

    /// The precedence of a token as an operator between two operands.
    fn get_precedence(token: &Token) -> (precedence: Precedence)
        ensures
            precedence == precedence_of(token@),
    {
        match token {
            Token::Equal | Token::NotEqual => Precedence::Equals,
            Token::LessThan | Token::GreaterThan => Precedence::LessGreater,
            Token::Plus | Token::Minus => Precedence::Sum,
            Token::Asterisk | Token::Slash => Precedence::Product,
            _ => Precedence::Lowest,
        }
    }

    /// Parses an expression that starts at the current token and takes in
    /// every operator that binds tighter than `precedence`. It stops at the
    /// last token of the expression.
    fn parse_expression(&mut self, precedence: Precedence) -> (result: Result<
        Option<Expression>,
        ParseError,
    >)
        requires
            old(self).wf(),
        ensures
            final(self).wf(),
            (Parsed { result: expression_result(result), rest: final(self)@ }) == expression(
                old(self)@,
                precedence,
            ),
        decreases old(self)@.len(), 1nat,
    {
        proof {
            self.lemma_tokens();
            lemma_expression_rest(advance(self@), Precedence::Prefix);
            lemma_expression_rest(advance(self@), Precedence::Lowest);
        }
        let mut left = match &self.current_token {
            Token::Ident(ident) => Expression::Identifier(ident.clone()),
            Token::Number(digits) => match parse_integer(digits.as_str()) {
                Some(value) => Expression::NumberLiteral(value),
                None => {
                    return Ok(None);
                },
            },
            Token::Bang | Token::Minus => match self.parse_prefix_expression() {
                Ok(Some(node)) => node,
                Ok(None) => {
                    return Ok(None);
                },
                Err(error) => {
                    return Err(error);
                },
            },
            Token::LParen => {
                self.advance_tokens();
                let inner = match self.parse_expression(Precedence::Lowest) {
                    Ok(inner) => inner,
                    Err(error) => {
                        return Err(error);
                    },
                };
                match self.expect_rparen() {
                    Ok(()) => {},
                    Err(error) => {
                        return Err(error);
                    },
                }
                match inner {
                    Some(node) => node,
                    None => {
                        return Ok(None);
                    },
                }
            },
            _ => {
                return Ok(None);
            },
        };
        while self.takes_operator(precedence)
            invariant
                self.wf(),
                self@.len() <= old(self)@.len(),
                infix(left@, self@, precedence) == expression(old(self)@, precedence),
            decreases self@.len(),
        {
            proof {
                lemma_expression_rest(
                    advance(advance(self@)),
                    precedence_of(lookahead(self@)),
                );
            }
            self.advance_tokens();
            left = match self.parse_infix_expression(left) {
                Ok(Some(node)) => node,
                Ok(None) => {
                    return Ok(None);
                },
                Err(error) => {
                    return Err(error);
                },
            };
        }
        Ok(Some(left))
    }

    /// Parses the operand of the prefix operator at the current token.
    fn parse_prefix_expression(&mut self) -> (result: Result<Option<Expression>, ParseError>)
        requires
            old(self).wf(),
        ensures
            final(self).wf(),
            match prefix_operator(current(old(self)@)) {
                Some(operator) => {
                    let operand = expression(advance(old(self)@), Precedence::Prefix);
                    &&& final(self)@ == operand.rest
                    &&& expression_result(result) == match operand.result {
                        Ok(Some(right)) => Ok(
                            Some(SpecExpression::Prefix { operator, right: Box::new(right) }),
                        ),
                        _ => operand.result,
                    }
                },
                None => final(self)@ == old(self)@ && result == Ok::<
                    Option<Expression>,
                    ParseError,
                >(None),
            },
        decreases old(self)@.len(), 0nat,
    {
        proof {
            self.lemma_tokens();
        }
        let operator = match &self.current_token {
            Token::Bang => String::from_str("!"),
            Token::Minus => String::from_str("-"),
            _ => {
                return Ok(None);
            },
        };
        self.advance_tokens();
        match self.parse_expression(Precedence::Prefix) {
            Ok(Some(right)) => Ok(Some(Expression::Prefix { operator, right: Box::new(right) })),
            Ok(None) => Ok(None),
            Err(error) => Err(error),
        }
    }

    /// Parses the right operand of the infix operator at the current token,
    /// and puts it together with the left one.
    fn parse_infix_expression(&mut self, left: Expression) -> (result: Result<
        Option<Expression>,
        ParseError,
    >)
        requires
            old(self).wf(),
            infix_operator(current(old(self)@)) is Some,
        ensures
            final(self).wf(),
            ({
                let token = current(old(self)@);
                let operand = expression(advance(old(self)@), precedence_of(token));
                &&& final(self)@ == operand.rest
                &&& expression_result(result) == match operand.result {
                    Ok(Some(right)) => Ok(
                        Some(
                            SpecExpression::Infix {
                                left: Box::new(left@),
                                operator: infix_operator(token)->0,
                                right: Box::new(right),
                            },
                        ),
                    ),
                    _ => operand.result,
                }
            }),
        decreases old(self)@.len(), 0nat,
    {
        proof {
            self.lemma_tokens();
        }
        let operator = match &self.current_token {
            Token::Plus => String::from_str("+"),
            Token::Minus => String::from_str("-"),
            Token::Asterisk => String::from_str("*"),
            Token::Slash => String::from_str("/"),
            Token::LessThan => String::from_str("<"),
            Token::GreaterThan => String::from_str(">"),
            _ => String::from_str(""),
        };
        let precedence = Self::get_precedence(&self.current_token);
        self.advance_tokens();
        match self.parse_expression(precedence) {
            Ok(Some(right)) => Ok(
                Some(Expression::Infix { left: Box::new(left), operator, right: Box::new(right) }),
            ),
            Ok(None) => Ok(None),
            Err(error) => Err(error),
        }
    }

    /// Steps over the `)` that must follow the current token.
    fn expect_rparen(&mut self) -> (result: Result<(), ParseError>)
        requires
            old(self).wf(),
        ensures
            final(self).wf(),
            match result {
                Ok(_) => lookahead(old(self)@) is RParen && final(self)@ == advance(old(self)@),
                Err(error) => !(lookahead(old(self)@) is RParen) && final(self)@ == old(self)@
                    && error@ == (SpecParseError::UnclosedParen {
                    found: lookahead(old(self)@),
                }),
            },
    {
        proof {
            self.lemma_tokens();
        }
        let closed = match &self.next_token {
            Token::RParen => true,
            _ => false,
        };
        if closed {
            self.advance_tokens();
            Ok(())
        } else {
            Err(ParseError::UnclosedParen { found: self.next_token.clone() })
        }
    }

    /// Parses an expression statement.
    fn parse_expression_statement(&mut self) -> (result: Result<Option<Statement>, ParseError>)
        requires
            old(self).wf(),
        ensures
            final(self).wf(),
            (Parsed { result: statement_result(result), rest: final(self)@ })
                == expression_statement(old(self)@),
    {
        match self.parse_expression(Precedence::Lowest) {
            Ok(Some(value)) => {
                self.skip_semicolon();
                Ok(Some(Statement::ExpressionStatement(value)))
            },
            Ok(None) => Ok(None),
            Err(error) => Err(error),
        }
    }

    /// Parses a `return` statement: the current token is `return`.
    fn parse_return_statement(&mut self) -> (result: Result<Option<Statement>, ParseError>)
        requires
            old(self).wf(),
        ensures
            final(self).wf(),
            (Parsed { result: statement_result(result), rest: final(self)@ })
                == return_statement(old(self)@),
    {
        self.advance_tokens();
        match self.parse_expression(Precedence::Lowest) {
            Ok(Some(value)) => {
                self.skip_semicolon();
                Ok(Some(Statement::ReturnStatement { value }))
            },
            Ok(None) => Ok(None),
            Err(error) => Err(error),
        }
    }
}

} // verus!
