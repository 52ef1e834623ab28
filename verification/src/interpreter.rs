//! The evaluator: walks the statements of a program against an environment
//! of bindings.
use vstd::prelude::*;
use vstd::hash_map::StringHashMap;
use vstd::pervasive::unreached;
use crate::ast::{program_view, Expression, Statement};
use crate::chars::same_text;
use crate::numeral::{integer_text, integer_to_string};
use crate::semantics::{
    expression_value, infix_value, integer_value, lemma_quotient_range, prefix_value,
    program_outcome, quotient, run, statement_outcome, wrap, Bindings, Outcome,
};

verus! {

/// A value at run time.
#[derive(Debug, Clone, Copy, PartialEq, Eq, Structural)]
pub enum Object {
    Integer(i64),
    Boolean(bool),
    Null,
}

/// Why evaluating stopped for good.
#[derive(Debug, Clone, Copy, PartialEq, Eq, Structural)]
pub enum EvalError {
    /// An integer was divided by zero.
    DivisionByZero,
}

/// What a statement yields: a value to go on with, or the value that a
/// `return` ends the program with.
#[derive(Debug, Clone, Copy, PartialEq, Eq, Structural)]
pub enum EvalResult {
    Value(Object),
    Return(Object),
}

/// The text of a value: an integer in decimal, a boolean as `true` or
/// `false`, and nothing as `null`.
pub open spec fn object_text(object: Object) -> Seq<char> {
    match object {
        Object::Integer(i) => integer_text(i as int),
        Object::Boolean(true) => "true"@,
        Object::Boolean(false) => "false"@,
        Object::Null => "null"@,
    }
}

impl Object {
    /// The text of the value.
    pub fn to_string(&self) -> (text: String)
        ensures
            text@ == object_text(*self),
    {
        match self {
            Object::Integer(i) => integer_to_string(*i),
            Object::Boolean(true) => String::from_str("true"),
            Object::Boolean(false) => String::from_str("false"),
            Object::Null => String::from_str("null"),
        }
    }
}

/// The bindings of a session: each name is bound once, to the value it was
/// last set to.
pub struct Environment {
    pub store: StringHashMap<Object>,
}

impl View for Environment {
    type V = Bindings;

    open spec fn view(&self) -> Bindings {
        self.store@
    }
}

impl Environment {
    /// An environment in which no name is bound.
    pub fn new() -> (env: Self)
        ensures
            env@ == Map::<Seq<char>, Object>::empty(),
    {
        Environment { store: StringHashMap::new() }
    }

    /// The value bound to `name`, if it is bound.
    pub fn get(&self, name: &str) -> (value: Option<Object>)
        ensures
            value == if self@.contains_key(name@) {
                Some(self@[name@])
            } else {
                None::<Object>
            },
    {
        match self.store.get(name) {
            Some(value) => Some(*value),
            None => None,
        }
    }

    /// Binds `name` to `val`, in place of what was bound to it.
    pub fn set(&mut self, name: String, val: Object)
        ensures
            final(self)@ == old(self)@.insert(name@, val),
    {
        self.store.insert(name, val);
    }
}

/// Evaluates the statements from left to right against the environment.
pub fn try_eval_program(statements: Vec<Statement>, env: &mut Environment) -> (result: Result<
    Object,
    EvalError,
>)
    ensures
        (Outcome { result, bindings: final(env)@ }) == program_outcome(
            program_view(statements@),
            old(env)@,
        ),
{
    let ghost program = program_view(statements@);
    let mut last = Object::Null;
    let mut i: usize = 0;
    assert(program.skip(0) =~= program);
    while i < statements.len()
        invariant
            i <= statements.len(),
            program == program_view(statements@),
            run(program.skip(i as int), env@, last) == program_outcome(program, old(env)@),
        decreases statements.len() - i,
    {
        proof {
            assert(program.skip(i as int)[0] == statements@[i as int]@);
            assert(program.skip(i as int).drop_first() =~= program.skip(i + 1));
        }
        match eval_statement(&statements[i], env) {
            Ok(EvalResult::Return(value)) => {
                return Ok(value);
            },
            Ok(EvalResult::Value(value)) => {
                last = value;
            },
            Err(error) => {
                return Err(error);
            },
        }
        i += 1;
    }
    Ok(last)
}

/// Evaluates the statements from left to right against the environment,
/// where no integer is divided by zero on the way.
pub fn eval_program(statements: Vec<Statement>, env: &mut Environment) -> (value: Object)
    requires
        program_outcome(program_view(statements@), old(env)@).result is Ok,
    ensures
        (Outcome { result: Ok(value), bindings: final(env)@ }) == program_outcome(
            program_view(statements@),
            old(env)@,
        ),
{
    match try_eval_program(statements, env) {
        Ok(value) => value,
        Err(_) => unreached(),
    }
}

/// Evaluates one statement: what it yields, and what it binds.
pub fn eval_statement(stmt: &Statement, env: &mut Environment) -> (result: Result<
    EvalResult,
    EvalError,
>)
    ensures
        (Outcome { result, bindings: final(env)@ }) == statement_outcome(stmt@, old(env)@),
{
    match stmt {
        Statement::LetStatement { name, value } => {
            match eval_expression(value, env) {
                Ok(val) => {
                    env.set(name.clone(), val);
                    Ok(EvalResult::Value(Object::Null))
                },
                Err(error) => Err(error),
            }
        },
        Statement::ReturnStatement { value } => {
            match eval_expression(value, env) {
                Ok(val) => Ok(EvalResult::Return(val)),
                Err(error) => Err(error),
            }
        },
        Statement::ExpressionStatement(expr) => {
            match eval_expression(expr, env) {
                Ok(val) => Ok(EvalResult::Value(val)),
                Err(error) => Err(error),
            }
        },
    }
}

/// The value of an expression in an environment.
pub fn eval_expression(expr: &Expression, env: &Environment) -> (result: Result<Object, EvalError>)
    ensures
        result == expression_value(expr@, env@),
    decreases expr,
{
    match expr {
        Expression::NumberLiteral(n) => Ok(Object::Integer(*n)),
        Expression::Identifier(name) => {
            match env.get(name.as_str()) {
                Some(value) => Ok(value),
                None => Ok(Object::Null),
            }
        },
        Expression::Prefix { operator, right } => {
            match eval_expression(right, env) {
                Ok(right_val) => Ok(eval_prefix_expression(operator.as_str(), right_val)),
                Err(error) => Err(error),
            }
        },
        Expression::Infix { left, operator, right } => {
            let left_val = match eval_expression(left, env) {
                Ok(value) => value,
                Err(error) => {
                    return Err(error);
                },
            };
            let right_val = match eval_expression(right, env) {
                Ok(value) => value,
                Err(error) => {
                    return Err(error);
                },
            };
            eval_infix_expression(operator.as_str(), left_val, right_val)
        },
    }
}

/// The value of a prefix operator applied to a value.
pub fn eval_prefix_expression(operator: &str, right: Object) -> (value: Object)
    ensures
        value == prefix_value(operator@, right),
{
    if same_text(operator, "!") {
        match right {
            Object::Boolean(b) => Object::Boolean(!b),
            Object::Null => Object::Boolean(true),
            Object::Integer(i) => Object::Boolean(i == 0),
        }
    } else if same_text(operator, "-") {
        match right {
            Object::Integer(i) => {
                let negated = 0i64.wrapping_sub(i);
                assert(negated == wrap(-i));
                Object::Integer(negated)
            },
            _ => Object::Null,
        }
    } else {
        Object::Null
    }
}

/// The quotient of two integers, rounded toward zero.
fn divide(left: i64, right: i64) -> (value: i64)
    requires
        right != 0,
    ensures
        value == wrap(quotient(left as int, right as int)),
{
    match left.checked_div(right) {
        Some(value) => {
            proof {
                lemma_quotient_range(left, right);
            }
            value
        },
        // The one quotient that no signed 64-bit integer holds wraps around
        // to the dividend.
        None => {
            proof {
                lemma_quotient_range(left, right);
            }
            left
        },
    }
}

/// The value of an operator between two integers, for the operators that
/// are for integers only.
fn eval_integer_expression(operator: &str, left: i64, right: i64) -> (value: Option<
    Result<Object, EvalError>,
>)
    ensures
        value == integer_value(operator@, left, right),
{
    if same_text(operator, "+") {
        let sum = left.wrapping_add(right);
        assert(sum == wrap(left + right));
        Some(Ok(Object::Integer(sum)))
    } else if same_text(operator, "-") {
        let difference = left.wrapping_sub(right);
        assert(difference == wrap(left - right));
        Some(Ok(Object::Integer(difference)))
    } else if same_text(operator, "*") {
        let product = left.wrapping_mul(right);
        assert(product == wrap(left * right));
        Some(Ok(Object::Integer(product)))
    } else if same_text(operator, "/") {
        if right == 0 {
            Some(Err(EvalError::DivisionByZero))
        } else {
            Some(Ok(Object::Integer(divide(left, right))))
        }
    } else if same_text(operator, "<") {
        Some(Ok(Object::Boolean(left < right)))
    } else if same_text(operator, ">") {
        Some(Ok(Object::Boolean(left > right)))
    } else {
        None
    }
}

/// The value of an infix operator between two values.
pub fn eval_infix_expression(operator: &str, left: Object, right: Object) -> (result: Result<
    Object,
    EvalError,
>)
    ensures
        result == infix_value(operator@, left, right),
{
    if same_text(operator, "==") {
        Ok(Object::Boolean(left == right))
    } else if same_text(operator, "!=") {
        Ok(Object::Boolean(left != right))
    } else {
        match (left, right) {
            (Object::Integer(l), Object::Integer(r)) => match eval_integer_expression(
                operator,
                l,
                r,
            ) {
                Some(result) => result,
                None => Ok(Object::Null),
            },
            _ => Ok(Object::Null),
        }
    }
}

} // verus!
