//! Laws that relate the tokenizer, the grammar and the evaluation of
//! programs.
use vstd::prelude::*;
use crate::ast::{SpecExpression, SpecStatement};
use crate::chars::is_ascii_digit;
use crate::grammar::{
    advance, expression, infix, infix_operator, precedence_of, program, statement, Parsed,
    Precedence, SpecParseError,
};
use crate::interpreter::{EvalError, Object};
use crate::lexer::{next_token_at, number_end, skip_spaces, tokenize, tokens_from, SpecToken};
use crate::numeral::{
    decimal_text, decimal_value, integer_literal, integer_text, is_decimal,
    lemma_decimal_text_round_trip,
};
use crate::semantics::{
    expression_value, prefix_value, program_outcome, run, statement_outcome, Bindings, Outcome,
};

verus! {

/// A run of digits that starts within a text of digits ends where the text
/// ends.
pub proof fn lemma_number_end_of_digits(input: Seq<char>, pos: int)
    requires
        0 <= pos <= input.len(),
        forall|i: int| pos <= i < input.len() ==> is_ascii_digit(#[trigger] input[i]),
    ensures
        number_end(input, pos) == input.len(),
    decreases input.len() - pos,
{
    if pos < input.len() {
        assert(is_ascii_digit(input[pos]));
        lemma_number_end_of_digits(input, pos + 1);
    }
}

/// The tokens of a text that from `pos` on is a decimal numeral: one number
/// token, with the numeral as its text.
pub proof fn lemma_tokens_of_numeral(input: Seq<char>, pos: int)
    requires
        0 <= pos < input.len(),
        forall|i: int| pos <= i < input.len() ==> is_ascii_digit(#[trigger] input[i]),
    ensures
        tokens_from(input, pos) == seq![SpecToken::Number(input.subrange(pos, input.len() as int))],
{
    assert(is_ascii_digit(input[pos]));
    lemma_number_end_of_digits(input, pos);
    let end = input.len() as int;
    assert(skip_spaces(input, pos) == pos);
    assert(next_token_at(input, pos) == (SpecToken::Number(input.subrange(pos, end)), end));
    assert(skip_spaces(input, end) == end);
    assert(next_token_at(input, end).0 is EOF);
    assert(tokens_from(input, end) =~= Seq::<SpecToken>::empty());
    assert(tokens_from(input, pos) =~= seq![SpecToken::Number(input.subrange(pos, end))]);
}

/// A decimal numeral that a signed 64-bit integer can hold is, once
/// tokenized and parsed, the number literal of its value: as an expression
/// on its own, and as the one statement of a program.
pub proof fn lemma_numeral_round_trip(text: Seq<char>)
    requires
        is_decimal(text),
        decimal_value(text) <= i64::MAX,
    ensures
        tokenize(text) == seq![SpecToken::Number(text)],
        expression(tokenize(text), Precedence::Lowest).result == Ok::<
            Option<SpecExpression>,
            SpecParseError,
        >(Some(SpecExpression::NumberLiteral(decimal_value(text) as i64))),
        program(tokenize(text)).result == Ok::<Seq<SpecStatement>, SpecParseError>(
            seq![
                SpecStatement::ExpressionStatement(
                    SpecExpression::NumberLiteral(decimal_value(text) as i64),
                ),
            ],
        ),
{
    lemma_tokens_of_numeral(text, 0);
    assert(text.subrange(0, text.len() as int) =~= text);
    let tokens = tokenize(text);
    let literal = SpecExpression::NumberLiteral(decimal_value(text) as i64);
    assert(integer_literal(text) == Some(decimal_value(text) as i64));
    assert(infix(literal, tokens, Precedence::Lowest) == Parsed {
        result: Ok(Some(literal)),
        rest: tokens,
    });
    assert(statement(tokens) == Parsed {
        result: Ok(Some(SpecStatement::ExpressionStatement(literal))),
        rest: tokens,
    });
    assert(advance(tokens) =~= Seq::<SpecToken>::empty());
    assert(program(advance(tokens)).result == Ok::<Seq<SpecStatement>, SpecParseError>(
        Seq::empty(),
    ));
    assert(seq![SpecStatement::ExpressionStatement(literal)] + Seq::<SpecStatement>::empty()
        =~= seq![SpecStatement::ExpressionStatement(literal)]);
}

/// A program of one expression statement comes to the value of the
/// expression, and leaves the bindings as they were.
pub proof fn lemma_single_expression_program(expression: SpecExpression, bindings: Bindings)
    ensures
        program_outcome(seq![SpecStatement::ExpressionStatement(expression)], bindings) == (
        Outcome { result: expression_value(expression, bindings), bindings }),
{
    let statements = seq![SpecStatement::ExpressionStatement(expression)];
    assert(statements.drop_first() =~= Seq::<SpecStatement>::empty());
    reveal_with_fuel(run, 2);
}

/// A decimal numeral that a signed 64-bit integer can hold, once tokenized,
/// parsed and evaluated, is the integer of its value, whatever is bound.
pub proof fn lemma_numeral_evaluates(text: Seq<char>, bindings: Bindings)
    requires
        is_decimal(text),
        decimal_value(text) <= i64::MAX,
    ensures
        program(tokenize(text)).result is Ok,
        program_outcome(program(tokenize(text)).result->Ok_0, bindings) == (Outcome {
            result: Ok(Object::Integer(decimal_value(text) as i64)),
            bindings,
        }),
{
    lemma_numeral_round_trip(text);
    lemma_single_expression_program(
        SpecExpression::NumberLiteral(decimal_value(text) as i64),
        bindings,
    );
}

/// The text of a signed 64-bit integer other than the least one, once
/// tokenized and parsed, is a program of one statement, and evaluates to
/// that integer whatever is bound. The least one is left out: the numeral
/// behind its sign is beyond what a number token can stand for.
pub proof fn lemma_integer_text_evaluates(i: i64, bindings: Bindings)
    requires
        i != i64::MIN,
    ensures
        program(tokenize(integer_text(i as int))).result is Ok,
        program(tokenize(integer_text(i as int))).result->Ok_0.len() == 1,
        program_outcome(program(tokenize(integer_text(i as int))).result->Ok_0, bindings)
            == (Outcome { result: Ok(Object::Integer(i)), bindings }),
{
    let text = integer_text(i as int);
    if i >= 0 {
        lemma_decimal_text_round_trip(i as nat);
        lemma_numeral_round_trip(text);
        lemma_single_expression_program(SpecExpression::NumberLiteral(i), bindings);
    } else {
        let digits = decimal_text((-i) as nat);
        lemma_decimal_text_round_trip((-i) as nat);
        assert(text.subrange(1, text.len() as int) =~= digits);
        assert forall|k: int| 1 <= k < text.len() implies is_ascii_digit(#[trigger] text[k]) by {
            assert(text[k] == digits[k - 1]);
        }
        lemma_tokens_of_numeral(text, 1);
        assert(skip_spaces(text, 0) == 0);
        assert(next_token_at(text, 0) == (SpecToken::Minus, 1int));
        let tokens = tokenize(text);
        assert(tokens =~= seq![SpecToken::Minus, SpecToken::Number(digits)]);
        let literal = SpecExpression::NumberLiteral((-i) as i64);
        let negated = SpecExpression::Prefix { operator: "-"@, right: Box::new(literal) };
        let operand_tokens = advance(tokens);
        assert(operand_tokens =~= seq![SpecToken::Number(digits)]);
        assert(integer_literal(digits) == Some((-i) as i64));
        assert(infix(literal, operand_tokens, Precedence::Prefix) == Parsed {
            result: Ok(Some(literal)),
            rest: operand_tokens,
        });
        assert(expression(operand_tokens, Precedence::Prefix) == Parsed {
            result: Ok(Some(literal)),
            rest: operand_tokens,
        });
        assert(infix(negated, operand_tokens, Precedence::Lowest) == Parsed {
            result: Ok(Some(negated)),
            rest: operand_tokens,
        });
        assert(expression(tokens, Precedence::Lowest) == Parsed {
            result: Ok(Some(negated)),
            rest: operand_tokens,
        });
        assert(statement(tokens) == Parsed {
            result: Ok(Some(SpecStatement::ExpressionStatement(negated))),
            rest: operand_tokens,
        });
        assert(advance(operand_tokens) =~= Seq::<SpecToken>::empty());
        assert(program(advance(operand_tokens)).result == Ok::<
            Seq<SpecStatement>,
            SpecParseError,
        >(Seq::empty()));
        let statements = seq![SpecStatement::ExpressionStatement(negated)];
        assert(statements + Seq::<SpecStatement>::empty() =~= statements);
        assert(program(tokens).result == Ok::<Seq<SpecStatement>, SpecParseError>(statements));
        lemma_single_expression_program(negated, bindings);
        assert(expression_value(literal, bindings) == Ok::<Object, EvalError>(
            Object::Integer((-i) as i64),
        ));
        assert("-"@ != "!"@) by {
            reveal_strlit("-");
            reveal_strlit("!");
            assert("-"@[0] != "!"@[0]);
        }
        assert(expression_value(negated, bindings) == Ok::<Object, EvalError>(
            Object::Integer(i),
        ));
    }
}

/// Of two operators between three names, the one that binds tighter takes
/// the name in the middle; where the second binds no tighter than the
/// first, the first does: operators of one precedence group from the left.
pub proof fn lemma_operators_group_by_precedence(
    a: Seq<char>,
    first: SpecToken,
    b: Seq<char>,
    second: SpecToken,
    c: Seq<char>,
)
    requires
        infix_operator(first) is Some,
        infix_operator(second) is Some,
    ensures
        expression(
            seq![SpecToken::Ident(a), first, SpecToken::Ident(b), second, SpecToken::Ident(c)],
            Precedence::Lowest,
        ).result == Ok::<Option<SpecExpression>, SpecParseError>(
            Some(
                if precedence_of(first).rank() < precedence_of(second).rank() {
                    SpecExpression::Infix {
                        left: Box::new(SpecExpression::Identifier(a)),
                        operator: infix_operator(first)->0,
                        right: Box::new(
                            SpecExpression::Infix {
                                left: Box::new(SpecExpression::Identifier(b)),
                                operator: infix_operator(second)->0,
                                right: Box::new(SpecExpression::Identifier(c)),
                            },
                        ),
                    }
                } else {
                    SpecExpression::Infix {
                        left: Box::new(
                            SpecExpression::Infix {
                                left: Box::new(SpecExpression::Identifier(a)),
                                operator: infix_operator(first)->0,
                                right: Box::new(SpecExpression::Identifier(b)),
                            },
                        ),
                        operator: infix_operator(second)->0,
                        right: Box::new(SpecExpression::Identifier(c)),
                    }
                },
            ),
        ),
{
    let tokens = seq![SpecToken::Ident(a), first, SpecToken::Ident(b), second, SpecToken::Ident(c)];
    let from_b = advance(advance(tokens));
    let from_c = advance(advance(from_b));
    assert(from_b =~= seq![SpecToken::Ident(b), second, SpecToken::Ident(c)]);
    assert(from_c =~= seq![SpecToken::Ident(c)]);
    let name_a = SpecExpression::Identifier(a);
    let name_b = SpecExpression::Identifier(b);
    let name_c = SpecExpression::Identifier(c);
    let tail = Parsed::<Option<SpecExpression>> { result: Ok(Some(name_c)), rest: from_c };
    assert(expression(from_c, precedence_of(second)) == tail) by {
        assert(infix(name_c, from_c, precedence_of(second)) == tail);
    }
    if precedence_of(first).rank() < precedence_of(second).rank() {
        let inner = SpecExpression::Infix {
            left: Box::new(name_b),
            operator: infix_operator(second)->0,
            right: Box::new(name_c),
        };
        let whole = SpecExpression::Infix {
            left: Box::new(name_a),
            operator: infix_operator(first)->0,
            right: Box::new(inner),
        };
        assert(infix(inner, from_c, precedence_of(first)).result == Ok::<
            Option<SpecExpression>,
            SpecParseError,
        >(Some(inner)));
        assert(infix(name_b, from_b, precedence_of(first)) == infix(
            inner,
            from_c,
            precedence_of(first),
        ));
        assert(expression(from_b, precedence_of(first)) == Parsed {
            result: Ok(Some(inner)),
            rest: from_c,
        });
        assert(infix(whole, from_c, Precedence::Lowest).result == Ok::<
            Option<SpecExpression>,
            SpecParseError,
        >(Some(whole)));
        assert(infix(name_a, tokens, Precedence::Lowest) == infix(
            whole,
            from_c,
            Precedence::Lowest,
        ));
    } else {
        let inner = SpecExpression::Infix {
            left: Box::new(name_a),
            operator: infix_operator(first)->0,
            right: Box::new(name_b),
        };
        let whole = SpecExpression::Infix {
            left: Box::new(inner),
            operator: infix_operator(second)->0,
            right: Box::new(name_c),
        };
        assert(infix(name_b, from_b, precedence_of(first)) == Parsed {
            result: Ok(Some(name_b)),
            rest: from_b,
        });
        assert(expression(from_b, precedence_of(first)) == Parsed {
            result: Ok(Some(name_b)),
            rest: from_b,
        });
        assert(infix(name_a, tokens, Precedence::Lowest) == infix(
            inner,
            from_b,
            Precedence::Lowest,
        ));
        assert(infix(whole, from_c, Precedence::Lowest).result == Ok::<
            Option<SpecExpression>,
            SpecParseError,
        >(Some(whole)));
        assert(infix(inner, from_b, Precedence::Lowest) == infix(
            whole,
            from_c,
            Precedence::Lowest,
        ));
    }
}

/// A name that is not bound has no value, and that is no error.
pub proof fn lemma_unbound_name_is_null(name: Seq<char>, bindings: Bindings)
    requires
        !bindings.contains_key(name),
    ensures
        expression_value(SpecExpression::Identifier(name), bindings) == Ok::<Object, EvalError>(
            Object::Null,
        ),
{
}

/// After a `let` whose value is `value`, the name stands for that value,
/// whatever it stood for before, and every other name for what it stood
/// for.
pub proof fn lemma_let_binds(
    name: Seq<char>,
    expression: SpecExpression,
    bindings: Bindings,
    value: Object,
)
    requires
        expression_value(expression, bindings) == Ok::<Object, EvalError>(value),
    ensures
        ({
            let then = statement_outcome(
                SpecStatement::LetStatement { name, value: expression },
                bindings,
            ).bindings;
            &&& expression_value(SpecExpression::Identifier(name), then) == Ok::<
                Object,
                EvalError,
            >(value)
            &&& forall|other: Seq<char>|
                other != name ==> #[trigger] expression_value(
                    SpecExpression::Identifier(other),
                    then,
                ) == expression_value(SpecExpression::Identifier(other), bindings)
        }),
{
}

/// An integer divided by zero is an error and has no value, whatever the
/// dividend.
pub proof fn lemma_division_by_zero(
    left: SpecExpression,
    right: SpecExpression,
    bindings: Bindings,
    dividend: i64,
)
    requires
        expression_value(left, bindings) == Ok::<Object, EvalError>(Object::Integer(dividend)),
        expression_value(right, bindings) == Ok::<Object, EvalError>(Object::Integer(0)),
    ensures
        expression_value(
            SpecExpression::Infix {
                left: Box::new(left),
                operator: "/"@,
                right: Box::new(right),
            },
            bindings,
        ) == Err::<Object, EvalError>(EvalError::DivisionByZero),
{
    reveal_strlit("/");
    reveal_strlit("==");
    reveal_strlit("!=");
    reveal_strlit("+");
    reveal_strlit("-");
    reveal_strlit("*");
    assert("/"@.len() != "=="@.len());
    assert("/"@.len() != "!="@.len());
    assert("/"@[0] != "+"@[0]);
    assert("/"@[0] != "-"@[0]);
    assert("/"@[0] != "*"@[0]);
}

/// `!` turns a boolean into the other one.
pub proof fn lemma_not_of_boolean(b: bool)
    ensures
        prefix_value("!"@, Object::Boolean(b)) == Object::Boolean(!b),
{
}

/// `!` takes zero for false and every other integer for true.
pub proof fn lemma_not_of_integer(i: i64)
    ensures
        prefix_value("!"@, Object::Integer(i)) == Object::Boolean(i == 0),
{
}

} // verus!
