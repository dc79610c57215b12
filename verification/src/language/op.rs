//! The operator model: the binary and unary operators of the template
//! language, their precedence ranks, and their per-type evaluation rules.

use crate::language::error::{Error, SpecError};
use crate::language::lexer::{view_token, SpecToken, Token};
use crate::language::rational::{
    spec_add, spec_div, spec_mul, spec_neg, spec_sub, Rational,
};
use crate::language::value::{
    remove_first_chars, repeat_chars, repeat_seq, repeat_values, spec_remove_first,
    view_call_result, view_value, view_values, wf_value, wf_values, Value,
};
use crate::language::value::{clone_values, lemma_view_values, lemma_view_values_concat, SpecValue};
use crate::text::{chars_to_string, str_chars};
use vstd::prelude::*;
use vstd::string::StringExecFns;

verus! {

/// A binary or unary operator.
#[derive(Debug, Clone, Copy, PartialEq, Eq)]
pub enum Op {
    Add,
    Sub,
    Mul,
    Div,
    And,
    Or,
    Not,
    Equals,
    NotEquals,
    LessThan,
    GreaterThan,
    LessThanEqual,
    GreaterThanEqual,
}

/// The precedence rank of an operator: a lower rank binds tighter.
/// Multiplicative operators bind tighter than additive ones, those tighter
/// than comparisons, and boolean connectives bind loosest.
pub open spec fn spec_precedence(op: Op) -> int {
    match op {
        Op::Not => 0,
        Op::Mul => 1,
        Op::Div => 1,
        Op::Add => 2,
        Op::Sub => 2,
        Op::Equals => 3,
        Op::NotEquals => 3,
        Op::LessThan => 3,
        Op::GreaterThan => 3,
        Op::LessThanEqual => 3,
        Op::GreaterThanEqual => 3,
        Op::And => 4,
        Op::Or => 4,
    }
}

/// The binary operator written by a token, if any.
pub open spec fn spec_op_from_token(t: SpecToken) -> Option<Op> {
    match t {
        SpecToken::Plus => Some(Op::Add),
        SpecToken::Minus => Some(Op::Sub),
        SpecToken::Star => Some(Op::Mul),
        SpecToken::Slash => Some(Op::Div),
        SpecToken::And => Some(Op::And),
        SpecToken::Or => Some(Op::Or),
        SpecToken::Equals => Some(Op::Equals),
        SpecToken::NotEquals => Some(Op::NotEquals),
        SpecToken::LessThan => Some(Op::LessThan),
        SpecToken::GreaterThan => Some(Op::GreaterThan),
        SpecToken::LessThanEqual => Some(Op::LessThanEqual),
        SpecToken::GreaterThanEqual => Some(Op::GreaterThanEqual),
        _ => None,
    }
}

impl Op {
    /// The precedence rank, for the parser's grouping rule.
    pub fn precedence(&self) -> (r: u32)
        ensures
            r as int == spec_precedence(*self),
    {
        match self {
            Op::Not => 0,
            Op::Mul => 1,
            Op::Div => 1,
            Op::Add => 2,
            Op::Sub => 2,
            Op::Equals => 3,
            Op::NotEquals => 3,
            Op::LessThan => 3,
            Op::GreaterThan => 3,
            Op::LessThanEqual => 3,
            Op::GreaterThanEqual => 3,
            Op::And => 4,
            Op::Or => 4,
        }
    }

    /// The binary operator written by a token, if any.
    pub fn from_token(token: &Token) -> (r: Option<Op>)
        ensures
            r == spec_op_from_token(view_token(*token)),
    {
        match token {
            Token::Plus => Some(Op::Add),
            Token::Minus => Some(Op::Sub),
            Token::Star => Some(Op::Mul),
            Token::Slash => Some(Op::Div),
            Token::And => Some(Op::And),
            Token::Or => Some(Op::Or),
            Token::Equals => Some(Op::Equals),
            Token::NotEquals => Some(Op::NotEquals),
            Token::LessThan => Some(Op::LessThan),
            Token::GreaterThan => Some(Op::GreaterThan),
            Token::LessThanEqual => Some(Op::LessThanEqual),
            Token::GreaterThanEqual => Some(Op::GreaterThanEqual),
            _ => None,
        }
    }
}

/// The quotient of machine-integer division, truncated toward zero.
pub open spec fn trunc_div(a: int, b: int) -> int
    recommends
        b != 0,
{
    let ma = if a < 0 {
        -a
    } else {
        a
    };
    let mb = if b < 0 {
        -b
    } else {
        b
    };
    if (a < 0) != (b < 0) {
        -(ma / mb)
    } else {
        ma / mb
    }
}

/// The fraction a numeric value stands for: an integer over one, or the
/// fraction itself. `None` for non-numeric values and for the ghost case
/// of an integer outside the machine range.
pub open spec fn as_rational(v: SpecValue) -> Option<Rational> {
    match v {
        SpecValue::Integer(n) => if i64::MIN <= n <= i64::MAX {
            Some(Rational { num: n as i64, den: 1 })
        } else {
            None
        },
        SpecValue::Float(r) => Some(r),
        _ => None,
    }
}

/// The result of fraction arithmetic as a value: `None` from the exact
/// operation means the result left the machine range.
pub open spec fn rat_result(r: Option<Rational>) -> Result<SpecValue, SpecError> {
    match r {
        Some(v) => Ok(SpecValue::Float(v)),
        None => Err(SpecError::Overflow),
    }
}

/// What a binary operator returns on two evaluated operands: the
/// per-type-pair rules of the language.
///
/// - Two integers follow exact machine arithmetic: a result outside the
///   machine range is an overflow error, division truncates toward zero,
///   and a zero divisor is an error.
/// - Any other numeric pair is computed exactly on fractions; an integer
///   promotes to a fraction.
/// - Two strings concatenate under `+`; `-` removes the first occurrence
///   of the right string from the left one.
/// - A string times an integer repeats the string, whichever side each
///   operand stands on; a negative count is a type error.
/// - A list times a trailing integer repeats the list; two lists
///   concatenate under `+`.
/// - Comparisons order numbers numerically; equality is also defined
///   between two strings, two booleans and two nulls.
/// - `&&` and `||` combine two booleans.
/// - Every other combination is a type error.
pub open spec fn spec_binary(op: Op, l: SpecValue, r: SpecValue) -> Result<
    SpecValue,
    SpecError,
> {
    match (l, r) {
        (SpecValue::Integer(a), SpecValue::Integer(b)) => match op {
            Op::Add => if i64::MIN <= a + b <= i64::MAX {
                Ok(SpecValue::Integer(a + b))
            } else {
                Err(SpecError::Overflow)
            },
            Op::Sub => if i64::MIN <= a - b <= i64::MAX {
                Ok(SpecValue::Integer(a - b))
            } else {
                Err(SpecError::Overflow)
            },
            Op::Mul => if i64::MIN <= a * b <= i64::MAX {
                Ok(SpecValue::Integer(a * b))
            } else {
                Err(SpecError::Overflow)
            },
            Op::Div => if b == 0 {
                Err(SpecError::DivisionByZero)
            } else if i64::MIN <= trunc_div(a, b) <= i64::MAX {
                Ok(SpecValue::Integer(trunc_div(a, b)))
            } else {
                Err(SpecError::Overflow)
            },
            Op::Equals => Ok(SpecValue::Boolean(a == b)),
            Op::NotEquals => Ok(SpecValue::Boolean(a != b)),
            Op::LessThan => Ok(SpecValue::Boolean(a < b)),
            Op::GreaterThan => Ok(SpecValue::Boolean(a > b)),
            Op::LessThanEqual => Ok(SpecValue::Boolean(a <= b)),
            Op::GreaterThanEqual => Ok(SpecValue::Boolean(a >= b)),
            _ => Err(SpecError::TypeError),
        },
        (SpecValue::Str(a), SpecValue::Str(b)) => match op {
            Op::Add => Ok(SpecValue::Str(a + b)),
            Op::Sub => Ok(SpecValue::Str(spec_remove_first(a, b))),
            Op::Equals => Ok(SpecValue::Boolean(a == b)),
            Op::NotEquals => Ok(SpecValue::Boolean(a != b)),
            _ => Err(SpecError::TypeError),
        },
        (SpecValue::Str(s), SpecValue::Integer(n)) => match op {
            Op::Mul => if n >= 0 {
                Ok(SpecValue::Str(repeat_seq(s, n as nat)))
            } else {
                Err(SpecError::TypeError)
            },
            _ => Err(SpecError::TypeError),
        },
        (SpecValue::Integer(n), SpecValue::Str(s)) => match op {
            Op::Mul => if n >= 0 {
                Ok(SpecValue::Str(repeat_seq(s, n as nat)))
            } else {
                Err(SpecError::TypeError)
            },
            _ => Err(SpecError::TypeError),
        },
        (SpecValue::List(a), SpecValue::Integer(n)) => match op {
            Op::Mul => if n >= 0 {
                Ok(SpecValue::List(repeat_seq(a, n as nat)))
            } else {
                Err(SpecError::TypeError)
            },
            _ => Err(SpecError::TypeError),
        },
        (SpecValue::List(a), SpecValue::List(b)) => match op {
            Op::Add => Ok(SpecValue::List(a + b)),
            _ => Err(SpecError::TypeError),
        },
        (SpecValue::Boolean(a), SpecValue::Boolean(b)) => match op {
            Op::And => Ok(SpecValue::Boolean(a && b)),
            Op::Or => Ok(SpecValue::Boolean(a || b)),
            Op::Equals => Ok(SpecValue::Boolean(a == b)),
            Op::NotEquals => Ok(SpecValue::Boolean(a != b)),
            _ => Err(SpecError::TypeError),
        },
        (SpecValue::Null, SpecValue::Null) => match op {
            Op::Equals => Ok(SpecValue::Boolean(true)),
            Op::NotEquals => Ok(SpecValue::Boolean(false)),
            _ => Err(SpecError::TypeError),
        },
        _ => match (as_rational(l), as_rational(r)) {
            (Some(x), Some(y)) => match op {
                Op::Add => rat_result(spec_add(x, y)),
                Op::Sub => rat_result(spec_sub(x, y)),
                Op::Mul => rat_result(spec_mul(x, y)),
                Op::Div => if y.numerator() == 0 {
                    Err(SpecError::DivisionByZero)
                } else {
                    rat_result(spec_div(x, y))
                },
                Op::Equals => Ok(
                    SpecValue::Boolean(
                        x.numerator() * y.denominator() == y.numerator() * x.denominator(),
                    ),
                ),
                Op::NotEquals => Ok(
                    SpecValue::Boolean(
                        x.numerator() * y.denominator() != y.numerator() * x.denominator(),
                    ),
                ),
                Op::LessThan => Ok(
                    SpecValue::Boolean(
                        x.numerator() * y.denominator() < y.numerator() * x.denominator(),
                    ),
                ),
                Op::GreaterThan => Ok(
                    SpecValue::Boolean(
                        x.numerator() * y.denominator() > y.numerator() * x.denominator(),
                    ),
                ),
                Op::LessThanEqual => Ok(
                    SpecValue::Boolean(
                        x.numerator() * y.denominator() <= y.numerator() * x.denominator(),
                    ),
                ),
                Op::GreaterThanEqual => Ok(
                    SpecValue::Boolean(
                        x.numerator() * y.denominator() >= y.numerator() * x.denominator(),
                    ),
                ),
                _ => Err(SpecError::TypeError),
            },
            _ => Err(SpecError::TypeError),
        },
    }
}

/// What a unary operator returns: `!` negates a boolean, `-` negates a
/// number, a leading `+` leaves a number unchanged; anything else is a
/// type error.
pub open spec fn spec_unary(op: Op, v: SpecValue) -> Result<SpecValue, SpecError> {
    match v {
        SpecValue::Boolean(b) => match op {
            Op::Not => Ok(SpecValue::Boolean(!b)),
            _ => Err(SpecError::TypeError),
        },
        SpecValue::Integer(n) => match op {
            Op::Sub => if i64::MIN <= -n <= i64::MAX {
                Ok(SpecValue::Integer(-n))
            } else {
                Err(SpecError::Overflow)
            },
            Op::Add => Ok(SpecValue::Integer(n)),
            _ => Err(SpecError::TypeError),
        },
        SpecValue::Float(r) => match op {
            Op::Sub => rat_result(spec_neg(r)),
            Op::Add => Ok(SpecValue::Float(r)),
            _ => Err(SpecError::TypeError),
        },
        _ => Err(SpecError::TypeError),
    }
}

/// The fraction a numeric value stands for, or `None` for a non-numeric
/// value.
fn as_rational_exec(v: &Value) -> (r: Option<Rational>)
    requires
        wf_value(*v),
    ensures
        r == as_rational(view_value(*v)),
        r is Some ==> r->0.wf(),
{
    match v {
        Value::Integer(n) => Some(Rational::from_int(*n)),
        Value::Float(fr) => Some(*fr),
        _ => None,
    }
}

impl Op {
    /// Applies this operator to two evaluated operands, following the
    /// language's per-type rules exactly.
    pub fn evaluate_binary(&self, left: &Value, right: &Value) -> (r: Result<Value, Error>)
        requires
            wf_value(*left),
            wf_value(*right),
        ensures
            view_call_result(r) == spec_binary(*self, left.deep_view(), right.deep_view()),
            r is Ok ==> wf_value(r->Ok_0),
    {
        match (left, right) {
            (Value::Integer(a), Value::Integer(b)) => match self {
                Op::Add => {
                    let w = *a as i128 + *b as i128;
                    if i64::MIN as i128 <= w && w <= i64::MAX as i128 {
                        Ok(Value::Integer(w as i64))
                    } else {
                        Err(Error::Overflow)
                    }
                },
                Op::Sub => {
                    let w = *a as i128 - *b as i128;
                    if i64::MIN as i128 <= w && w <= i64::MAX as i128 {
                        Ok(Value::Integer(w as i64))
                    } else {
                        Err(Error::Overflow)
                    }
                },
                Op::Mul => {
                    proof {
                        assert((*a as int) * (*b as int)
                            <= 0x40000000000000000000000000000000int && (*a as int) * (
                        *b as int) >= -0x40000000000000000000000000000000int)
                            by (nonlinear_arith)
                            requires
                                -0x8000000000000000 <= *a as int <= 0x7fffffffffffffff,
                                -0x8000000000000000 <= *b as int <= 0x7fffffffffffffff,
                        ;
                    }
                    let w = *a as i128 * *b as i128;
                    if i64::MIN as i128 <= w && w <= i64::MAX as i128 {
                        Ok(Value::Integer(w as i64))
                    } else {
                        Err(Error::Overflow)
                    }
                },
                Op::Div => {
                    if *b == 0 {
                        Err(Error::DivisionByZero)
                    } else {
                        let ma: u64 = if *a < 0 {
                            (-(*a as i128)) as u64
                        } else {
                            *a as u64
                        };
                        let mb: u64 = if *b < 0 {
                            (-(*b as i128)) as u64
                        } else {
                            *b as u64
                        };
                        let q = ma / mb;
                        if (*a < 0) != (*b < 0) {
                            Ok(Value::Integer((-(q as i128)) as i64))
                        } else {
                            if q <= i64::MAX as u64 {
                                Ok(Value::Integer(q as i64))
                            } else {
                                Err(Error::Overflow)
                            }
                        }
                    }
                },
                Op::Equals => Ok(Value::Boolean(*a == *b)),
                Op::NotEquals => Ok(Value::Boolean(*a != *b)),
                Op::LessThan => Ok(Value::Boolean(*a < *b)),
                Op::GreaterThan => Ok(Value::Boolean(*a > *b)),
                Op::LessThanEqual => Ok(Value::Boolean(*a <= *b)),
                Op::GreaterThanEqual => Ok(Value::Boolean(*a >= *b)),
                _ => Err(Error::TypeError),
            },
            (Value::String(a), Value::String(b)) => match self {
                Op::Add => Ok(Value::String(a.clone().concat(b.as_str()))),
                Op::Sub => {
                    let ca = str_chars(a.as_str());
                    let cb = str_chars(b.as_str());
                    let out = remove_first_chars(&ca, &cb);
                    Ok(Value::String(chars_to_string(&out)))
                },
                Op::Equals => Ok(Value::Boolean(crate::language::value::str_eq(
                    a.as_str(),
                    b.as_str(),
                ))),
                Op::NotEquals => Ok(Value::Boolean(!crate::language::value::str_eq(
                    a.as_str(),
                    b.as_str(),
                ))),
                _ => Err(Error::TypeError),
            },
            (Value::String(text), Value::Integer(n)) => match self {
                Op::Mul => if *n >= 0 {
                    let chars = str_chars(text.as_str());
                    let rep = repeat_chars(&chars, *n as u64);
                    Ok(Value::String(chars_to_string(&rep)))
                } else {
                    Err(Error::TypeError)
                },
                _ => Err(Error::TypeError),
            },
            (Value::Integer(n), Value::String(text)) => match self {
                Op::Mul => if *n >= 0 {
                    let chars = str_chars(text.as_str());
                    let rep = repeat_chars(&chars, *n as u64);
                    Ok(Value::String(chars_to_string(&rep)))
                } else {
                    Err(Error::TypeError)
                },
                _ => Err(Error::TypeError),
            },
            (Value::List(items), Value::Integer(n)) => match self {
                Op::Mul => if *n >= 0 {
                    let rep = repeat_values(items, *n as u64);
                    proof {
                        if wf_values(items@) {
                            assert(wf_value(Value::List(rep)));
                        }
                    }
                    Ok(Value::List(rep))
                } else {
                    Err(Error::TypeError)
                },
                _ => Err(Error::TypeError),
            },
            (Value::List(a), Value::List(b)) => match self {
                Op::Add => {
                    let mut out = clone_values(a);
                    let ghost leftview = out@;
                    let mut tail = clone_values(b);
                    let ghost tailview = tail@;
                    out.append(&mut tail);
                    proof {
                        lemma_view_values_concat(leftview, tailview);
                        lemma_view_values_concat(a@, b@);
                        assert(view_values(out@) == view_values(a@) + view_values(b@));
                        assert(wf_value(Value::List(out))) by {
                            assert forall|j: int| 0 <= j < out@.len() implies wf_value(
                                #[trigger] out@[j],
                            ) by {
                                if j < leftview.len() {
                                    assert(out@[j] == leftview[j]);
                                    assert(wf_value(a@[j]));
                                } else {
                                    assert(out@[j] == tailview[j - leftview.len()]);
                                    assert(wf_value(b@[j - leftview.len()]));
                                }
                            }
                        }
                    }
                    Ok(Value::List(out))
                },
                _ => Err(Error::TypeError),
            },
            (Value::Boolean(a), Value::Boolean(b)) => match self {
                Op::And => Ok(Value::Boolean(*a && *b)),
                Op::Or => Ok(Value::Boolean(*a || *b)),
                Op::Equals => Ok(Value::Boolean(*a == *b)),
                Op::NotEquals => Ok(Value::Boolean(*a != *b)),
                _ => Err(Error::TypeError),
            },
            (Value::Null, Value::Null) => match self {
                Op::Equals => Ok(Value::Boolean(true)),
                Op::NotEquals => Ok(Value::Boolean(false)),
                _ => Err(Error::TypeError),
            },
            _ => {
                match (as_rational_exec(left), as_rational_exec(right)) {
                    (Some(x), Some(y)) => match self {
                        Op::Add => match x.add(&y) {
                            Some(v) => Ok(Value::Float(v)),
                            None => Err(Error::Overflow),
                        },
                        Op::Sub => match x.sub(&y) {
                            Some(v) => Ok(Value::Float(v)),
                            None => Err(Error::Overflow),
                        },
                        Op::Mul => match x.mul(&y) {
                            Some(v) => Ok(Value::Float(v)),
                            None => Err(Error::Overflow),
                        },
                        Op::Div => if y.is_zero() {
                            Err(Error::DivisionByZero)
                        } else {
                            match x.div(&y) {
                                Some(v) => Ok(Value::Float(v)),
                                None => Err(Error::Overflow),
                            }
                        },
                        Op::Equals => Ok(Value::Boolean(x.eq_value(&y))),
                        Op::NotEquals => Ok(Value::Boolean(!x.eq_value(&y))),
                        Op::LessThan => Ok(Value::Boolean(x.lt(&y))),
                        Op::GreaterThan => Ok(Value::Boolean(y.lt(&x))),
                        Op::LessThanEqual => Ok(Value::Boolean(x.le(&y))),
                        Op::GreaterThanEqual => Ok(Value::Boolean(y.le(&x))),
                        _ => Err(Error::TypeError),
                    },
                    _ => Err(Error::TypeError),
                }
            },
        }
    }

    /// Applies this operator to one evaluated operand.
    pub fn evaluate_unary(&self, operand: &Value) -> (r: Result<Value, Error>)
        requires
            wf_value(*operand),
        ensures
            view_call_result(r) == spec_unary(*self, operand.deep_view()),
            r is Ok ==> wf_value(r->Ok_0),
    {
        match operand {
            Value::Boolean(b) => match self {
                Op::Not => Ok(Value::Boolean(!*b)),
                _ => Err(Error::TypeError),
            },
            Value::Integer(n) => match self {
                Op::Sub => {
                    let w = -(*n as i128);
                    if w <= i64::MAX as i128 {
                        Ok(Value::Integer(w as i64))
                    } else {
                        Err(Error::Overflow)
                    }
                },
                Op::Add => Ok(Value::Integer(*n)),
                _ => Err(Error::TypeError),
            },
            Value::Float(fr) => match self {
                Op::Sub => match fr.neg() {
                    Some(v) => Ok(Value::Float(v)),
                    None => Err(Error::Overflow),
                },
                Op::Add => Ok(Value::Float(*fr)),
                _ => Err(Error::TypeError),
            },
            _ => Err(Error::TypeError),
        }
    }
}

} // verus!
