use aion::ast::{Expression, Statement};
use aion::interpreter::{
    eval_expression, eval_infix_expression, eval_prefix_expression, eval_program, eval_statement,
    try_eval_program, Environment, EvalError, EvalResult, Object,
};
use aion::lexer::Lexer;
use aion::parser::Parser;

fn run_in(input: &str, env: &mut Environment) -> Result<Object, EvalError> {
    let program = Parser::new(Lexer::new(input)).parse_program();
    try_eval_program(program, env)
}

fn run(input: &str) -> Result<Object, EvalError> {
    run_in(input, &mut Environment::new())
}

fn integer(value: i64) -> Result<Object, EvalError> {
    Ok(Object::Integer(value))
}

fn boolean(value: bool) -> Result<Object, EvalError> {
    Ok(Object::Boolean(value))
}

fn name(text: &str) -> Expression {
    Expression::Identifier(text.to_string())
}

fn number(value: i64) -> Expression {
    Expression::NumberLiteral(value)
}

fn prefix(operator: &str, right: Expression) -> Expression {
    Expression::Prefix { operator: operator.to_string(), right: Box::new(right) }
}

fn infix(left: Expression, operator: &str, right: Expression) -> Expression {
    Expression::Infix { left: Box::new(left), operator: operator.to_string(), right: Box::new(right) }
}

#[test]
fn test_let_and_ident() {
    let input = "
        let a = 5;
        let b = a + 5;
        b;
    ";

    let mut parser = Parser::new(Lexer::new(input));
    let program = parser.parse_program();

    let mut env = Environment::new();
    let result = eval_program(program, &mut env);

    assert_eq!(result, Object::Integer(10));
}

#[test]
fn test_arithmetic_and_comparison() {
    let cases = vec![
        ("5 + 5;", 10),
        ("2 * 3 + 1;", 7),
        ("5 + 3 * 2;", 11),
        ("5 < 10;", 1),
    ];

    for (input, expected_int) in cases {
        let mut parser = Parser::new(Lexer::new(input));
        let program = parser.parse_program();
        let mut env = Environment::new();
        let result = eval_program(program, &mut env);

        match result {
            Object::Integer(i) => assert_eq!(i, expected_int),
            Object::Boolean(b) => {
                if expected_int == 1 {
                    assert!(b);
                } else {
                    panic!("expected integer, found boolean");
                }
            }
            _ => panic!("unexpected object"),
        }
    }
}

#[test]
fn a_product_is_taken_before_a_sum() {
    assert_eq!(run("5 + 3 * 2;"), integer(11));
    assert_eq!(run("(5 + 3) * 2;"), integer(16));
}

#[test]
fn differences_are_taken_from_the_left() {
    assert_eq!(run("10 - 2 - 3;"), integer(5));
    assert_eq!(run("10 - (2 - 3);"), integer(11));
    assert_eq!(run("100 / 10 / 5"), integer(2));
}

#[test]
fn a_binding_reaches_the_statements_after_it() {
    assert_eq!(run("let a = 5; let b = a + 5; b;"), integer(10));
    let mut env = Environment::new();
    assert_eq!(run_in("let a = 5; let b = a + 5; b;", &mut env), integer(10));
    assert_eq!(env.get("a"), Some(Object::Integer(5)));
    assert_eq!(env.get("b"), Some(Object::Integer(10)));
    assert_eq!(env.get("c"), None);
}

#[test]
fn integers_are_ordered() {
    assert_eq!(run("5 < 10;"), boolean(true));
    assert_eq!(run("5 > 10;"), boolean(false));
    assert_eq!(run("10 < 5;"), boolean(false));
    assert_eq!(run("10 > 5;"), boolean(true));
    assert_eq!(run("5 < 5;"), boolean(false));
    assert_eq!(run("5 > 5;"), boolean(false));
    assert_eq!(run("-1 < 0"), boolean(true));
}

#[test]
fn not_takes_zero_and_nothing_for_false() {
    assert_eq!(run("!0;"), boolean(true));
    assert_eq!(run("!5;"), boolean(false));
    assert_eq!(run("!-5;"), boolean(false));
    assert_eq!(run("!unbound;"), boolean(true));
    assert_eq!(run("!!0;"), boolean(false));
    assert_eq!(run("!(1 < 2)"), boolean(false));
    assert_eq!(run("!(2 < 1)"), boolean(true));
    assert_eq!(eval_prefix_expression("!", Object::Boolean(true)), Object::Boolean(false));
    assert_eq!(eval_prefix_expression("!", Object::Boolean(false)), Object::Boolean(true));
    assert_eq!(eval_prefix_expression("!", Object::Null), Object::Boolean(true));
    assert_eq!(eval_prefix_expression("!", Object::Integer(0)), Object::Boolean(true));
    assert_eq!(eval_prefix_expression("!", Object::Integer(i64::MIN)), Object::Boolean(false));
}

#[test]
fn a_boolean_keyword_starts_no_expression() {
    assert_eq!(Parser::new(Lexer::new("!true;")).parse_program(), vec![]);
    assert_eq!(run("!true;"), Ok(Object::Null));
    assert_eq!(run("true;"), Ok(Object::Null));
    assert_eq!(run("1; !false"), integer(1));
    let mut env = Environment::new();
    assert_eq!(run_in("let t = 1 < 2; !t;", &mut env), boolean(false));
    assert_eq!(run_in("!!t;", &mut env), boolean(true));
}

#[test]
fn minus_negates_integers_only() {
    assert_eq!(run("-5"), integer(-5));
    assert_eq!(run("--5"), integer(5));
    assert_eq!(run("-0"), integer(0));
    assert_eq!(eval_prefix_expression("-", Object::Integer(7)), Object::Integer(-7));
    assert_eq!(eval_prefix_expression("-", Object::Integer(-7)), Object::Integer(7));
    assert_eq!(eval_prefix_expression("-", Object::Integer(i64::MAX)), Object::Integer(-i64::MAX));
    assert_eq!(eval_prefix_expression("-", Object::Integer(i64::MIN)), Object::Integer(i64::MIN));
    assert_eq!(eval_prefix_expression("-", Object::Boolean(true)), Object::Null);
    assert_eq!(eval_prefix_expression("-", Object::Null), Object::Null);
    assert_eq!(run("-(1 < 2)"), Ok(Object::Null));
    assert_eq!(run("-unbound"), Ok(Object::Null));
}

#[test]
fn an_unknown_prefix_operator_has_no_value() {
    assert_eq!(eval_prefix_expression("+", Object::Integer(1)), Object::Null);
    assert_eq!(eval_prefix_expression("", Object::Integer(1)), Object::Null);
    assert_eq!(eval_prefix_expression("!!", Object::Boolean(true)), Object::Null);
    assert_eq!(eval_prefix_expression("--", Object::Integer(1)), Object::Null);
}

#[test]
fn a_name_that_is_not_bound_is_null() {
    assert_eq!(run("foo;"), Ok(Object::Null));
    let mut env = Environment::new();
    env.set("bar".to_string(), Object::Integer(1));
    assert_eq!(run_in("foo;", &mut env), Ok(Object::Null));
    assert_eq!(run_in("bar;", &mut env), integer(1));
    assert_eq!(run_in("foo + 1", &mut env), Ok(Object::Null));
}

#[test]
fn division_by_zero_is_an_error() {
    assert_eq!(run("5 / 0;"), Err(EvalError::DivisionByZero));
    assert_eq!(run("0 / 0;"), Err(EvalError::DivisionByZero));
    assert_eq!(run("1 + 5 / (2 - 2)"), Err(EvalError::DivisionByZero));
    assert_eq!(run("let x = 0; 7 / x"), Err(EvalError::DivisionByZero));
    assert_eq!(run("-(1 / 0)"), Err(EvalError::DivisionByZero));
    assert_eq!(run("!(1 / 0)"), Err(EvalError::DivisionByZero));
    assert_eq!(run("return 1 / 0;"), Err(EvalError::DivisionByZero));
    assert_eq!(
        eval_infix_expression("/", Object::Integer(i64::MIN), Object::Integer(0)),
        Err(EvalError::DivisionByZero)
    );
}

#[test]
fn only_an_integer_zero_divisor_is_an_error() {
    assert_eq!(run("0 / 5"), integer(0));
    assert_eq!(run("5 / unbound"), Ok(Object::Null));
    assert_eq!(run("unbound / 0"), Ok(Object::Null));
    assert_eq!(run("(1 < 2) / 0"), Ok(Object::Null));
    assert_eq!(run("5 / (1 < 2)"), Ok(Object::Null));
}

#[test]
fn an_error_ends_the_program_and_keeps_the_bindings_made_before_it() {
    let mut env = Environment::new();
    assert_eq!(
        run_in("let a = 1; let b = 2 / 0; let c = 3; c", &mut env),
        Err(EvalError::DivisionByZero)
    );
    assert_eq!(env.get("a"), Some(Object::Integer(1)));
    assert_eq!(env.get("b"), None);
    assert_eq!(env.get("c"), None);
}

#[test]
fn the_left_operand_is_evaluated_before_the_right() {
    let tree = infix(infix(number(1), "/", number(0)), "+", infix(number(2), "/", number(0)));
    assert_eq!(eval_expression(&tree, &Environment::new()), Err(EvalError::DivisionByZero));
    let tree = infix(number(1), "+", infix(number(2), "/", number(0)));
    assert_eq!(eval_expression(&tree, &Environment::new()), Err(EvalError::DivisionByZero));
}

#[test]
fn integer_arithmetic_is_exact_within_the_range() {
    assert_eq!(run("5 + 5;"), integer(10));
    assert_eq!(run("2 * 3 + 1;"), integer(7));
    assert_eq!(run("7 - 10"), integer(-3));
    assert_eq!(run("6 * 7"), integer(42));
    assert_eq!(run("-6 * 7"), integer(-42));
    assert_eq!(run("-6 * -7"), integer(42));
    assert_eq!(run("9223372036854775807 + 0"), integer(i64::MAX));
    assert_eq!(run("-9223372036854775807 - 1"), integer(i64::MIN));
    assert_eq!(run("4611686018427387904 * -2"), integer(i64::MIN));
}

#[test]
fn integer_arithmetic_wraps_around() {
    assert_eq!(run("9223372036854775807 + 1"), integer(i64::MIN));
    assert_eq!(run("9223372036854775807 + 9223372036854775807"), integer(-2));
    assert_eq!(run("-9223372036854775807 - 2"), integer(i64::MAX));
    assert_eq!(run("0 - 9223372036854775807 - 9223372036854775807"), integer(2));
    assert_eq!(run("4611686018427387904 * 2"), integer(i64::MIN));
    assert_eq!(run("4611686018427387904 * 4"), integer(0));
    assert_eq!(run("9223372036854775807 * 9223372036854775807"), integer(1));
    assert_eq!(run("9223372036854775807 * 3"), integer(i64::MAX - 2));
    assert_eq!(run("3037000500 * 3037000500"), integer(3037000500i64.wrapping_mul(3037000500)));
    assert_eq!(run("-(-9223372036854775807 - 1)"), integer(i64::MIN));
    assert_eq!(run("(-9223372036854775807 - 1) / -1"), integer(i64::MIN));
    assert_eq!(run("(-9223372036854775807 - 1) / 1"), integer(i64::MIN));
    assert_eq!(run("(-9223372036854775807 - 1) * -1"), integer(i64::MIN));
}

#[test]
fn arithmetic_agrees_with_wrapping_machine_arithmetic() {
    let samples = [
        i64::MIN, i64::MIN + 1, -4611686018427387905, -3037000500, -1000003, -7, -2, -1, 0, 1, 2,
        3, 10, 4097, 3037000499, 4611686018427387904, i64::MAX - 1, i64::MAX,
    ];
    for l in samples {
        for r in samples {
            let (left, right) = (Object::Integer(l), Object::Integer(r));
            assert_eq!(eval_infix_expression("+", left, right), integer(l.wrapping_add(r)));
            assert_eq!(eval_infix_expression("-", left, right), integer(l.wrapping_sub(r)));
            assert_eq!(eval_infix_expression("*", left, right), integer(l.wrapping_mul(r)));
            if r == 0 {
                assert_eq!(eval_infix_expression("/", left, right), Err(EvalError::DivisionByZero));
            } else {
                assert_eq!(eval_infix_expression("/", left, right), integer(l.wrapping_div(r)));
            }
            assert_eq!(eval_infix_expression("<", left, right), boolean(l < r));
            assert_eq!(eval_infix_expression(">", left, right), boolean(l > r));
            assert_eq!(eval_infix_expression("==", left, right), boolean(l == r));
            assert_eq!(eval_infix_expression("!=", left, right), boolean(l != r));
        }
        assert_eq!(eval_prefix_expression("-", Object::Integer(l)), Object::Integer(l.wrapping_neg()));
    }
}

#[test]
fn a_quotient_is_rounded_toward_zero() {
    assert_eq!(run("7 / 2"), integer(3));
    assert_eq!(run("-7 / 2"), integer(-3));
    assert_eq!(run("7 / -2"), integer(-3));
    assert_eq!(run("-7 / -2"), integer(3));
    assert_eq!(run("1 / 2"), integer(0));
    assert_eq!(run("-1 / 2"), integer(0));
    assert_eq!(run("6 / 3"), integer(2));
    assert_eq!(run("-6 / 3"), integer(-2));
    assert_eq!(run("9223372036854775807 / -1"), integer(-i64::MAX));
}

#[test]
fn equality_is_for_any_two_values() {
    let values = [
        Object::Integer(0),
        Object::Integer(1),
        Object::Integer(-1),
        Object::Boolean(true),
        Object::Boolean(false),
        Object::Null,
    ];
    for (i, left) in values.iter().enumerate() {
        for (j, right) in values.iter().enumerate() {
            assert_eq!(eval_infix_expression("==", *left, *right), boolean(i == j));
            assert_eq!(eval_infix_expression("!=", *left, *right), boolean(i != j));
        }
    }
}

#[test]
fn equality_in_a_tree_is_evaluated_though_no_text_parses_to_it() {
    let env = Environment::new();
    assert_eq!(eval_expression(&infix(number(5), "==", number(5)), &env), boolean(true));
    assert_eq!(eval_expression(&infix(number(5), "!=", number(5)), &env), boolean(false));
    assert_eq!(eval_expression(&infix(name("x"), "==", name("y")), &env), boolean(true));
    assert_eq!(eval_expression(&infix(name("x"), "==", number(0)), &env), boolean(false));
    assert_eq!(
        eval_expression(&infix(infix(number(1), "<", number(2)), "==", prefix("!", number(0))), &env),
        boolean(true)
    );
}

#[test]
fn the_other_operators_are_for_two_integers() {
    let others = [Object::Boolean(true), Object::Boolean(false), Object::Null];
    for operator in ["+", "-", "*", "/", "<", ">"] {
        for left in others {
            for right in others {
                assert_eq!(eval_infix_expression(operator, left, right), Ok(Object::Null));
            }
            assert_eq!(eval_infix_expression(operator, left, Object::Integer(0)), Ok(Object::Null));
            assert_eq!(eval_infix_expression(operator, Object::Integer(0), left), Ok(Object::Null));
        }
    }
}

#[test]
fn an_unknown_infix_operator_has_no_value() {
    for operator in ["", "%", "&&", "<=", ">=", "=", "+ ", "++", "===", "!"] {
        assert_eq!(
            eval_infix_expression(operator, Object::Integer(6), Object::Integer(3)),
            Ok(Object::Null)
        );
        assert_eq!(
            eval_infix_expression(operator, Object::Boolean(true), Object::Boolean(true)),
            Ok(Object::Null)
        );
        assert_eq!(eval_infix_expression(operator, Object::Null, Object::Null), Ok(Object::Null));
    }
}

#[test]
fn the_last_statement_gives_the_result() {
    assert_eq!(run(""), Ok(Object::Null));
    assert_eq!(run("1; 2; 3"), integer(3));
    assert_eq!(run("1; let x = 2;"), Ok(Object::Null));
    assert_eq!(run("1; let x = 2; x"), integer(2));
    assert_eq!(run("1; nothing"), Ok(Object::Null));
}

#[test]
fn a_return_ends_the_program() {
    assert_eq!(run("return 1; 2"), integer(1));
    assert_eq!(run("1; return 2; 3 / 0"), integer(2));
    let mut env = Environment::new();
    assert_eq!(run_in("let a = 1; return a + 1; let a = 5; let b = 6;", &mut env), integer(2));
    assert_eq!(env.get("a"), Some(Object::Integer(1)));
    assert_eq!(env.get("b"), None);
}

#[test]
fn bindings_last_from_one_program_to_the_next() {
    let mut env = Environment::new();
    assert_eq!(run_in("let a = 5;", &mut env), Ok(Object::Null));
    assert_eq!(run_in("let b = a * 2;", &mut env), Ok(Object::Null));
    assert_eq!(run_in("a + b", &mut env), integer(15));
    assert_eq!(run_in("let a = a + 1; a", &mut env), integer(6));
    assert_eq!(run_in("a + b", &mut env), integer(16));
}

#[test]
fn the_last_write_to_a_name_wins() {
    let mut env = Environment::new();
    assert_eq!(env.get("x"), None);
    env.set("x".to_string(), Object::Integer(1));
    assert_eq!(env.get("x"), Some(Object::Integer(1)));
    env.set("x".to_string(), Object::Boolean(true));
    assert_eq!(env.get("x"), Some(Object::Boolean(true)));
    env.set("y".to_string(), Object::Null);
    assert_eq!(env.get("x"), Some(Object::Boolean(true)));
    assert_eq!(env.get("y"), Some(Object::Null));
    assert_eq!(env.get(""), None);
    assert_eq!(env.get("X"), None);
    assert_eq!(run_in("let x = 1; let x = 2; x", &mut env), integer(2));
}

#[test]
fn a_let_binds_a_value_of_any_kind() {
    let mut env = Environment::new();
    assert_eq!(run_in("let t = 1 < 2; let n = nothing; let m = -t;", &mut env), Ok(Object::Null));
    assert_eq!(env.get("t"), Some(Object::Boolean(true)));
    assert_eq!(env.get("n"), Some(Object::Null));
    assert_eq!(env.get("m"), Some(Object::Null));
}

#[test]
fn a_statement_yields_a_value_or_returns_one() {
    let mut env = Environment::new();
    let bind = Statement::LetStatement { name: "x".to_string(), value: number(4) };
    assert_eq!(eval_statement(&bind, &mut env), Ok(EvalResult::Value(Object::Null)));
    assert_eq!(env.get("x"), Some(Object::Integer(4)));
    let yielded = Statement::ExpressionStatement(infix(name("x"), "*", name("x")));
    assert_eq!(eval_statement(&yielded, &mut env), Ok(EvalResult::Value(Object::Integer(16))));
    let returned = Statement::ReturnStatement { value: prefix("-", name("x")) };
    assert_eq!(eval_statement(&returned, &mut env), Ok(EvalResult::Return(Object::Integer(-4))));
    let failing = Statement::LetStatement { name: "x".to_string(), value: infix(number(1), "/", number(0)) };
    assert_eq!(eval_statement(&failing, &mut env), Err(EvalError::DivisionByZero));
    assert_eq!(env.get("x"), Some(Object::Integer(4)));
}

#[test]
fn a_program_that_divides_by_no_zero_evaluates_the_same_either_way() {
    for input in ["", "5 + 3 * 2;", "let a = 5; let b = a + 5; b;", "return 1; 1 / 0", "!x; -y"] {
        let program = Parser::new(Lexer::new(input)).parse_program();
        let value = eval_program(program, &mut Environment::new());
        assert_eq!(run(input), Ok(value));
    }
}

#[test]
fn a_value_has_its_text() {
    assert_eq!(Object::Integer(0).to_string(), "0");
    assert_eq!(Object::Integer(10).to_string(), "10");
    assert_eq!(Object::Integer(-42).to_string(), "-42");
    assert_eq!(Object::Integer(i64::MAX).to_string(), "9223372036854775807");
    assert_eq!(Object::Integer(i64::MIN).to_string(), "-9223372036854775808");
    assert_eq!(Object::Boolean(true).to_string(), "true");
    assert_eq!(Object::Boolean(false).to_string(), "false");
    assert_eq!(Object::Null.to_string(), "null");
}
