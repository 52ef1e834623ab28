use aion::ast::{Expression, Statement};
use aion::grammar::Precedence;
use aion::lexer::{Lexer, Token};
use aion::parser::{ParseError, Parser};

fn parse(input: &str) -> Vec<Statement> {
    Parser::new(Lexer::new(input)).parse_program()
}

fn try_parse(input: &str) -> Result<Vec<Statement>, ParseError> {
    Parser::new(Lexer::new(input)).try_parse_program()
}

fn name(text: &str) -> Expression {
    Expression::Identifier(text.to_string())
}

fn number(value: i64) -> Expression {
    Expression::NumberLiteral(value)
}

fn prefix(operator: &str, right: Expression) -> Expression {
    Expression::Prefix { operator: operator.to_string(), right: Box::new(right) }
}

fn infix(left: Expression, operator: &str, right: Expression) -> Expression {
    Expression::Infix { left: Box::new(left), operator: operator.to_string(), right: Box::new(right) }
}

fn expr(value: Expression) -> Statement {
    Statement::ExpressionStatement(value)
}

fn bind(text: &str, value: Expression) -> Statement {
    Statement::LetStatement { name: text.to_string(), value }
}

fn unclosed(found: Token) -> Result<Vec<Statement>, ParseError> {
    Err(ParseError::UnclosedParen { found })
}

#[test]
fn test_let_statements() {
    let input = "
        let x = 10;
        let y = 20;
    ";

    let lexer = Lexer::new(input);
    let mut parser = Parser::new(lexer);

    let program = parser.parse_program();

    assert_eq!(program.len(), 2);

    match &program[0] {
        Statement::LetStatement { name, .. } => assert_eq!(name, "x"),
        _ => panic!("expected let statement"),
    }

    match &program[1] {
        Statement::LetStatement { name, .. } => assert_eq!(name, "y"),
        _ => panic!("expected let statement"),
    }
}

#[test]
fn let_statements_hold_their_values() {
    assert_eq!(
        parse("let x = 10; let y = 20;"),
        vec![bind("x", number(10)), bind("y", number(20))]
    );
}

#[test]
fn a_product_binds_tighter_than_a_sum() {
    assert_eq!(
        parse("5 + 3 * 2;"),
        vec![expr(infix(number(5), "+", infix(number(3), "*", number(2))))]
    );
    assert_eq!(
        parse("5 * 3 + 2;"),
        vec![expr(infix(infix(number(5), "*", number(3)), "+", number(2)))]
    );
}

#[test]
fn an_order_binds_looser_than_a_sum() {
    assert_eq!(
        parse("1 + 2 < 3 * 4"),
        vec![expr(infix(
            infix(number(1), "+", number(2)),
            "<",
            infix(number(3), "*", number(4))
        ))]
    );
    assert_eq!(
        parse("a > b - c"),
        vec![expr(infix(name("a"), ">", infix(name("b"), "-", name("c"))))]
    );
}

#[test]
fn operators_of_one_precedence_group_from_the_left() {
    assert_eq!(
        parse("10 - 2 - 3;"),
        vec![expr(infix(infix(number(10), "-", number(2)), "-", number(3)))]
    );
    assert_eq!(
        parse("8 / 4 * 2 / 1"),
        vec![expr(infix(
            infix(infix(number(8), "/", number(4)), "*", number(2)),
            "/",
            number(1)
        ))]
    );
    assert_eq!(
        parse("a < b > c"),
        vec![expr(infix(infix(name("a"), "<", name("b")), ">", name("c")))]
    );
}

#[test]
fn parentheses_group_before_precedence() {
    assert_eq!(
        parse("(5 + 3) * 2;"),
        vec![expr(infix(infix(number(5), "+", number(3)), "*", number(2)))]
    );
    assert_eq!(
        parse("10 - (2 - 3)"),
        vec![expr(infix(number(10), "-", infix(number(2), "-", number(3))))]
    );
    assert_eq!(parse("((7))"), vec![expr(number(7))]);
    assert_eq!(parse("(x);"), vec![expr(name("x"))]);
}

#[test]
fn a_prefix_operator_takes_the_nearest_operand() {
    assert_eq!(parse("-5;"), vec![expr(prefix("-", number(5)))]);
    assert_eq!(parse("!x"), vec![expr(prefix("!", name("x")))]);
    assert_eq!(parse("!-a"), vec![expr(prefix("!", prefix("-", name("a"))))]);
    assert_eq!(
        parse("-a * b"),
        vec![expr(infix(prefix("-", name("a")), "*", name("b")))]
    );
    assert_eq!(
        parse("a + -b"),
        vec![expr(infix(name("a"), "+", prefix("-", name("b"))))]
    );
    assert_eq!(
        parse("-(a + b)"),
        vec![expr(prefix("-", infix(name("a"), "+", name("b"))))]
    );
    assert_eq!(
        parse("a - -b - c"),
        vec![expr(infix(infix(name("a"), "-", prefix("-", name("b"))), "-", name("c")))]
    );
}

#[test]
fn a_semicolon_after_a_statement_may_be_left_out() {
    assert_eq!(parse("5"), vec![expr(number(5))]);
    assert_eq!(parse("5;"), vec![expr(number(5))]);
    assert_eq!(parse("let a = 1 let b = 2"), vec![bind("a", number(1)), bind("b", number(2))]);
    assert_eq!(parse("1; 2 3;"), vec![expr(number(1)), expr(number(2)), expr(number(3))]);
}

#[test]
fn a_return_statement_holds_its_value() {
    assert_eq!(
        parse("return 1 + 2;"),
        vec![Statement::ReturnStatement { value: infix(number(1), "+", number(2)) }]
    );
    assert_eq!(parse("return x"), vec![Statement::ReturnStatement { value: name("x") }]);
    assert_eq!(parse("return;"), vec![]);
    assert_eq!(parse("return"), vec![]);
}

#[test]
fn an_empty_program_has_no_statement() {
    assert_eq!(parse(""), vec![]);
    assert_eq!(parse("  \n "), vec![]);
    assert_eq!(parse(";"), vec![]);
    assert_eq!(parse(";;;"), vec![]);
}

#[test]
fn a_let_without_a_name_is_left_out() {
    assert_eq!(parse("let 5 = 3;"), vec![expr(number(5)), expr(number(3))]);
    assert_eq!(parse("let = 3;"), vec![expr(number(3))]);
    assert_eq!(parse("let"), vec![]);
    assert_eq!(parse("let let x = 1;"), vec![bind("x", number(1))]);
}

#[test]
fn a_let_takes_the_token_after_its_name_for_the_equal_sign() {
    assert_eq!(parse("let x = 5;"), vec![bind("x", number(5))]);
    assert_eq!(parse("let x + 5;"), vec![bind("x", number(5))]);
    assert_eq!(parse("let x 5;"), vec![]);
    assert_eq!(parse("let x"), vec![]);
    assert_eq!(parse("let x ="), vec![]);
    assert_eq!(parse("let x = ; 7"), vec![expr(number(7))]);
}

#[test]
fn tokens_that_start_no_expression_are_passed_over() {
    assert_eq!(parse("@ 5"), vec![expr(number(5))]);
    assert_eq!(parse("} , { 5 )"), vec![expr(number(5))]);
    assert_eq!(parse("true"), vec![]);
    assert_eq!(parse("if x else y"), vec![expr(name("x")), expr(name("y"))]);
    assert_eq!(parse("fn f"), vec![expr(name("f"))]);
    assert_eq!(parse("* 5"), vec![expr(number(5))]);
}

#[test]
fn an_operator_without_its_right_operand_leaves_no_statement() {
    assert_eq!(parse("5 +"), vec![]);
    assert_eq!(parse("5 + ;"), vec![]);
    assert_eq!(parse("5 + ; 6"), vec![expr(number(6))]);
    assert_eq!(parse("5 * 2 + ; 6"), vec![expr(number(6))]);
    assert_eq!(parse("let x = 1 -; x"), vec![expr(name("x"))]);
    assert_eq!(parse("-"), vec![]);
    assert_eq!(parse("- ; 3"), vec![expr(number(3))]);
    assert_eq!(parse("!;+ 1"), vec![expr(number(1))]);
}

#[test]
fn a_number_beyond_the_range_leaves_no_statement() {
    assert_eq!(parse("9223372036854775807"), vec![expr(number(i64::MAX))]);
    assert_eq!(parse("9223372036854775808"), vec![]);
    assert_eq!(parse("-9223372036854775807"), vec![expr(prefix("-", number(i64::MAX)))]);
    assert_eq!(parse("-9223372036854775808"), vec![]);
    assert_eq!(parse("1 + 99999999999999999999; 2"), vec![expr(number(2))]);
    assert_eq!(parse("٣; 4"), vec![expr(number(4))]);
}

#[test]
fn the_equality_operators_end_an_expression() {
    assert_eq!(parse("5 == 5;"), vec![expr(number(5)), expr(number(5))]);
    assert_eq!(parse("a != b"), vec![expr(name("a")), expr(name("b"))]);
    assert_eq!(
        parse("1 + 2 == 3"),
        vec![expr(infix(number(1), "+", number(2))), expr(number(3))]
    );
}

#[test]
fn an_assignment_sign_ends_an_expression() {
    assert_eq!(parse("x = 5"), vec![expr(name("x")), expr(number(5))]);
}

#[test]
fn empty_parentheses_leave_no_statement() {
    assert_eq!(parse("(;)"), vec![]);
    assert_eq!(parse("(;) + 1"), vec![expr(number(1))]);
    assert_eq!(parse("(;) 2"), vec![expr(number(2))]);
}

#[test]
fn an_unclosed_parenthesis_is_fatal() {
    assert_eq!(try_parse("("), unclosed(Token::EOF));
    assert_eq!(try_parse("(5"), unclosed(Token::EOF));
    assert_eq!(try_parse("(5;"), unclosed(Token::Semicolon));
    assert_eq!(try_parse("(5 + 3"), unclosed(Token::EOF));
    assert_eq!(try_parse("(5 6)"), unclosed(Token::Number("6".to_string())));
    assert_eq!(try_parse("( ) + 1"), unclosed(Token::Plus));
    assert_eq!(try_parse("()"), unclosed(Token::EOF));
    assert_eq!(try_parse("((1)"), unclosed(Token::EOF));
    assert_eq!(try_parse("1; let x = (2; 3"), unclosed(Token::Semicolon));
    assert_eq!(try_parse("return (a b"), unclosed(Token::Ident("b".to_string())));
    assert_eq!(try_parse("-(1"), unclosed(Token::EOF));
    assert_eq!(try_parse("2 * (1"), unclosed(Token::EOF));
    assert_eq!(try_parse("(1 == 1)"), unclosed(Token::Equal));
}

#[test]
fn a_program_without_a_fatal_error_parses_the_same_either_way() {
    for input in ["", "5 + 3 * 2;", "let a = 5; let b = a + 5; b;", "(1 + 2) * -3", "let 5; @ +"] {
        assert_eq!(try_parse(input), Ok(parse(input)));
    }
}

#[test]
fn a_parser_that_is_done_stays_done() {
    let mut parser = Parser::new(Lexer::new("1; 2"));
    assert_eq!(parser.parse_program().len(), 2);
    assert_eq!(parser.parse_program(), vec![]);
    assert_eq!(parser.try_parse_program(), Ok(vec![]));
}

#[test]
fn a_parser_takes_up_where_its_tokenizer_is() {
    let mut lexer = Lexer::new("let x = 1; 2 + 3");
    assert_eq!(lexer.next_token(), Token::Let);
    assert_eq!(lexer.next_token(), Token::Ident("x".to_string()));
    assert_eq!(
        Parser::new(lexer).parse_program(),
        vec![expr(number(1)), expr(infix(number(2), "+", number(3)))]
    );
}

#[test]
fn precedences_are_ranked_from_lowest_to_call() {
    assert_eq!(Precedence::Lowest.level(), 0);
    assert_eq!(Precedence::Equals.level(), 1);
    assert_eq!(Precedence::LessGreater.level(), 2);
    assert_eq!(Precedence::Sum.level(), 3);
    assert_eq!(Precedence::Product.level(), 4);
    assert_eq!(Precedence::Prefix.level(), 5);
    assert_eq!(Precedence::Call.level(), 6);
}

#[test]
fn a_tree_and_its_clone_are_equal() {
    for statement in parse("let x = -(a + 1) * 2; return !x; x < 3") {
        assert_eq!(statement.clone(), statement);
    }
}
