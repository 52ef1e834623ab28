//! What a program means: the value of an expression in an environment, the
//! effect of a statement, and the result of a sequence of statements.
use vstd::prelude::*;
use crate::ast::{SpecExpression, SpecStatement};
use crate::interpreter::{EvalError, EvalResult, Object};

verus! {

/// The bindings of an environment: from a name to its value.
pub type Bindings = Map<Seq<char>, Object>;

/// The signed 64-bit integer that an integer wraps around to.
pub open spec fn wrap(i: int) -> i64 {
    let low = i % 0x1_0000_0000_0000_0000;
    if low > i64::MAX {
        (low - 0x1_0000_0000_0000_0000) as i64
    } else {
        low as i64
    }
}

/// The quotient of two integers, rounded toward zero. The divisor is not
/// zero.
pub open spec fn quotient(dividend: int, divisor: int) -> int {
    if dividend >= 0 && divisor > 0 {
        dividend / divisor
    } else if dividend < 0 && divisor < 0 {
        (-dividend) / (-divisor)
    } else if dividend < 0 {
        -((-dividend) / divisor)
    } else {
        -(dividend / (-divisor))
    }
}

/// An integer that a signed 64-bit integer holds wraps around to itself:
/// arithmetic is exact wherever its result is within the range.
pub proof fn lemma_wrap_within_range(i: int)
    requires
        i64::MIN <= i <= i64::MAX,
    ensures
        wrap(i) == i,
{
}

/// Wrapping around changes an integer by a multiple of two to the power of
/// 64, and gives a signed 64-bit integer.
pub proof fn lemma_wrap_is_congruent(i: int)
    ensures
        (i - wrap(i)) % 0x1_0000_0000_0000_0000 == 0,
        i64::MIN <= wrap(i) <= i64::MAX,
{
}

/// A quotient is rounded toward zero: what is left of the dividend has the
/// sign of the dividend, and is nearer to zero than the divisor is.
pub proof fn lemma_quotient_rounds_toward_zero(dividend: int, divisor: int)
    requires
        divisor != 0,
    ensures
        ({
            let left_over = dividend - quotient(dividend, divisor) * divisor;
            let size = if divisor < 0 {
                -divisor
            } else {
                divisor
            };
            &&& dividend >= 0 ==> 0 <= left_over < size
            &&& dividend <= 0 ==> -size < left_over <= 0
        }),
{
    let x: int = if dividend < 0 {
        -dividend
    } else {
        dividend
    };
    let d: int = if divisor < 0 {
        -divisor
    } else {
        divisor
    };
    assert(0 <= x - (x / d) * d < d) by (nonlinear_arith)
        requires
            0 <= x,
            0 < d,
    ;
    let q = x / d;
    assert((-q) * divisor == -(q * divisor)) by (nonlinear_arith);
    assert(q * (-d) == -(q * d)) by (nonlinear_arith);
}

/// The quotient of two signed 64-bit integers is one itself, but for the
/// least of them divided by minus one.
pub proof fn lemma_quotient_range(dividend: i64, divisor: i64)
    requires
        divisor != 0,
    ensures
        i64::MIN <= quotient(dividend as int, divisor as int) <= i64::MAX + 1,
        quotient(dividend as int, divisor as int) == i64::MAX + 1 <==> dividend == i64::MIN
            && divisor == -1,
{
    let x: int = if dividend < 0 {
        -dividend
    } else {
        dividend as int
    };
    let d: int = if divisor < 0 {
        -divisor
    } else {
        divisor as int
    };
    assert(0 <= x / d && (x / d) * d <= x) by (nonlinear_arith)
        requires
            0 <= x,
            0 < d,
    ;
    assert(x / d <= x && (x / d == x && x > 0 ==> d == 1)) by (nonlinear_arith)
        requires
            0 <= x / d,
            (x / d) * d <= x,
            0 < d,
    ;
    if d == 1 {
        assert(x / 1 == x);
    }
}

/// The value of a prefix operator applied to a value.
///
/// `!` negates a boolean, and takes nothing and zero for false: it turns
/// them into true, and every other integer into false. `-` negates an
/// integer. Whatever else is asked for has no value.
pub open spec fn prefix_value(operator: Seq<char>, right: Object) -> Object {
    if operator == "!"@ {
        match right {
            Object::Boolean(b) => Object::Boolean(!b),
            Object::Null => Object::Boolean(true),
            Object::Integer(i) => Object::Boolean(i == 0),
        }
    } else if operator == "-"@ {
        match right {
            Object::Integer(i) => Object::Integer(wrap(-i)),
            _ => Object::Null,
        }
    } else {
        Object::Null
    }
}

/// The value of an arithmetic operator or an order between two integers, if
/// the operator is one: sums, differences and products wrap around, a
/// quotient is rounded toward zero, and there is none by zero.
pub open spec fn integer_value(operator: Seq<char>, left: i64, right: i64) -> Option<
    Result<Object, EvalError>,
> {
    if operator == "+"@ {
        Some(Ok(Object::Integer(wrap(left + right))))
    } else if operator == "-"@ {
        Some(Ok(Object::Integer(wrap(left - right))))
    } else if operator == "*"@ {
        Some(Ok(Object::Integer(wrap(left * right))))
    } else if operator == "/"@ {
        if right == 0 {
            Some(Err(EvalError::DivisionByZero))
        } else {
            Some(Ok(Object::Integer(wrap(quotient(left as int, right as int)))))
        }
    } else if operator == "<"@ {
        Some(Ok(Object::Boolean(left < right)))
    } else if operator == ">"@ {
        Some(Ok(Object::Boolean(left > right)))
    } else {
        None
    }
}

/// The value of an infix operator between two values.
///
/// `==` and `!=` say of any two values whether they are the same: of the
/// same kind and with the same content. The other operators are for two
/// integers; between other values they have no value.
pub open spec fn infix_value(operator: Seq<char>, left: Object, right: Object) -> Result<
    Object,
    EvalError,
> {
    if operator == "=="@ {
        Ok(Object::Boolean(left == right))
    } else if operator == "!="@ {
        Ok(Object::Boolean(left != right))
    } else {
        match (left, right) {
            (Object::Integer(l), Object::Integer(r)) => match integer_value(operator, l, r) {
                Some(value) => value,
                None => Ok(Object::Null),
            },
            _ => Ok(Object::Null),
        }
    }
}

/// The value of an expression. A name that is not bound has no value, which
/// is no error. An error in an operand is the error of the whole, the left
/// operand's before the right one's.
pub open spec fn expression_value(expression: SpecExpression, bindings: Bindings) -> Result<
    Object,
    EvalError,
>
    decreases expression,
{
    match expression {
        SpecExpression::NumberLiteral(value) => Ok(Object::Integer(value)),
        SpecExpression::Identifier(name) => Ok(
            if bindings.contains_key(name) {
                bindings[name]
            } else {
                Object::Null
            },
        ),
        SpecExpression::Prefix { operator, right } => match expression_value(*right, bindings) {
            Ok(value) => Ok(prefix_value(operator, value)),
            Err(error) => Err(error),
        },
        SpecExpression::Infix { left, operator, right } => match expression_value(
            *left,
            bindings,
        ) {
            Ok(left_value) => match expression_value(*right, bindings) {
                Ok(right_value) => infix_value(operator, left_value, right_value),
                Err(error) => Err(error),
            },
            Err(error) => Err(error),
        },
    }
}

/// What evaluating has come to: a result, and the bindings it has left.
pub struct Outcome<T> {
    pub result: Result<T, EvalError>,
    pub bindings: Bindings,
}

/// The effect of one statement. A `let` binds its name to the value, in
/// place of what was bound to it, and yields nothing. A `return` yields its
/// value as the result of the whole program. An expression yields its value.
/// On an error the bindings stay as they were.
pub open spec fn statement_outcome(statement: SpecStatement, bindings: Bindings) -> Outcome<
    EvalResult,
> {
    match statement {
        SpecStatement::LetStatement { name, value } => match expression_value(value, bindings) {
            Ok(bound) => Outcome {
                result: Ok(EvalResult::Value(Object::Null)),
                bindings: bindings.insert(name, bound),
            },
            Err(error) => Outcome { result: Err(error), bindings },
        },
        SpecStatement::ReturnStatement { value } => Outcome {
            result: match expression_value(value, bindings) {
                Ok(returned) => Ok(EvalResult::Return(returned)),
                Err(error) => Err(error),
            },
            bindings,
        },
        SpecStatement::ExpressionStatement(value) => Outcome {
            result: match expression_value(value, bindings) {
                Ok(yielded) => Ok(EvalResult::Value(yielded)),
                Err(error) => Err(error),
            },
            bindings,
        },
    }
}

/// The outcome of the statements from left to right, where `last` is what
/// the statement before them has yielded. The first `return` or error ends
/// the run; without one the result is what the last statement yields.
pub open spec fn run(statements: Seq<SpecStatement>, bindings: Bindings, last: Object) -> Outcome<
    Object,
>
    decreases statements.len(),
{
    if statements.len() == 0 {
        Outcome { result: Ok(last), bindings }
    } else {
        let first = statement_outcome(statements[0], bindings);
        match first.result {
            Ok(EvalResult::Value(value)) => run(statements.drop_first(), first.bindings, value),
            Ok(EvalResult::Return(value)) => Outcome {
                result: Ok(value),
                bindings: first.bindings,
            },
            Err(error) => Outcome { result: Err(error), bindings: first.bindings },
        }
    }
}

/// The outcome of a program: of its statements, with nothing yielded before
/// the first.
pub open spec fn program_outcome(statements: Seq<SpecStatement>, bindings: Bindings) -> Outcome<
    Object,
> {
    run(statements, bindings, Object::Null)
}

} // verus!
