use rum::language::context::Context;
use rum::language::error::Error;
use rum::language::expression::{Evaluate, Expression};
use rum::language::op::Op;
use rum::language::lexer::tokenize;
use rum::language::rational::Rational;
use rum::language::value::Value;

fn float(num: i64, den: i64) -> Value {
    Value::Float(Rational::new(num, den).unwrap())
}

#[test]
fn test_if_const() -> Result<(), Error> {
    assert_eq!("<% 1 == 2 %>".evaluate_default()?, Value::Boolean(false));
    assert_eq!("<% 1 == 1 %>".evaluate_default()?, Value::Boolean(true));

    Ok(())
}

#[test]
fn test_list() -> Result<(), Error> {
    let mut context = Context::default();
    context.set("variable", Value::String("world".to_string()))?;
    context.set(
        "list",
        Value::List(vec![Value::Integer(1), Value::Integer(2), Value::Integer(3)]),
    )?;

    let t1 = "<% [1, 2, \"hello\", 3.13, variable] %>".evaluate(&context)?;
    assert_eq!(
        t1,
        Value::List(vec![
            Value::Integer(1),
            Value::Integer(2),
            Value::String("hello".into()),
            float(313, 100),
            Value::String("world".into()),
        ])
    );

    let t2 = "<% [1, 2, 3] * 2 %>".evaluate_default()?;
    assert_eq!(
        t2,
        Value::List(vec![
            Value::Integer(1),
            Value::Integer(2),
            Value::Integer(3),
            Value::Integer(1),
            Value::Integer(2),
            Value::Integer(3),
        ])
    );

    assert_eq!("<% [1, 2, 3].0 %>".evaluate_default()?, Value::Integer(1));

    assert_eq!("<% list.0 %>".evaluate(&context)?, Value::Integer(1));

    Ok(())
}

#[test]
fn test_hash() -> Result<(), Error> {
    let mut context = Context::default();
    context.set(
        "hash",
        Value::Hash(vec![("key".to_string(), Value::Integer(5))]),
    )?;

    let t1 = "<% (hash.key * 2.5) - 2.5 %>".evaluate(&context)?;
    assert_eq!(t1, float(10, 1));

    Ok(())
}

#[test]
fn test_call() -> Result<(), Error> {
    assert_eq!(
        "<% 54.5.to_string %>".evaluate_default()?,
        Value::String("54.5".into())
    );
    assert_eq!(
        "<% \"one\".upcase %>".evaluate_default()?,
        Value::String("ONE".into())
    );
    assert_eq!(
        "<% (\"one\" + \"two\" + \"three\" ).upcase %>".evaluate_default()?,
        Value::String("ONETWOTHREE".into())
    );
    assert_eq!(
        "<% \" one\".upcase.trim %>".evaluate_default()?,
        Value::String("ONE".into())
    );

    let mut context = Context::default();
    context.set("variable", Value::String("hello".to_string()))?;

    assert_eq!(
        "<% (((variable.upcase * 2) * 1).downcase).upcase %>".evaluate(&context)?,
        Value::String("HELLOHELLO".into())
    );

    Ok(())
}

#[test]
fn test_math() -> Result<(), Error> {
    assert_eq!("<% 2 * 0.5 %>".evaluate_default()?, float(1, 1));
    assert_eq!("<% 2 * 2 + 3 * 5 %>".evaluate_default()?, Value::Integer(19));
    assert_eq!("<% 1.5 * 3 + 25 %>".evaluate_default()?, float(59, 2));
    assert_eq!("<% (1 + 5) * 0.25 %>".evaluate_default()?, float(3, 2));

    Ok(())
}

#[test]
fn test_unary() -> Result<(), Error> {
    assert_eq!(
        "<% !false == true && true %>".evaluate_default()?,
        Value::Boolean(true)
    );

    let mut context = Context::default();
    context.set("variable", Value::Integer(5))?;
    assert_eq!("<% -variable * 1.5 %>".evaluate(&context)?, float(-15, 2));
    Ok(())
}

#[test]
fn test_parenthesis() -> Result<(), Error> {
    let t1 = "<% ((1 + 2) + (-1 - -1)) * 5 + (25 - 5) %>";
    assert_eq!(t1.evaluate_default()?, Value::Integer(35));

    Ok(())
}

#[test]
fn test_syntactic_sugar() -> Result<(), Error> {
    let t1 = "<% \"copy\" * 3 + 1 * \"copy\" %>".evaluate_default()?;
    assert_eq!(t1, Value::String("copycopycopycopy".into()));

    let t2 = "<% \"where is the love\" - \"where is the \" %>".evaluate_default()?;
    assert_eq!(t2, Value::String("love".into()));

    Ok(())
}

#[test]
fn test_string_repeat_commutes() -> Result<(), Error> {
    // The operand orders of string repetition agree on concrete values.
    assert_eq!(
        "<% \"ab\" * 3 %>".evaluate_default()?,
        Value::String("ababab".into())
    );
    assert_eq!(
        "<% 3 * \"ab\" %>".evaluate_default()?,
        Value::String("ababab".into())
    );
    Ok(())
}

#[test]
fn test_undefined_variable() {
    let r = "<% missing + 1 %>".evaluate_default();
    assert_eq!(r, Err(Error::UndefinedVariable("missing".to_string())));
}

#[test]
fn test_unterminated_brackets() {
    // A parenthesis left open before the block end is a syntax error.
    assert!(matches!(
        "<% (1 + 2 %>".evaluate_default(),
        Err(Error::ExpressionSyntax(_))
    ));
    // A parenthesis left open at the end of the input runs out of tokens.
    assert!(matches!("<% (1 + 2".evaluate_default(), Err(Error::Eof(_))));
    // A square bracket left open is a syntax error at the block end.
    assert!(matches!(
        "<% [1, 2 %>".evaluate_default(),
        Err(Error::ExpressionSyntax(_))
    ));
    // A square bracket left open at the end of the input runs out.
    assert!(matches!("<% [1, 2".evaluate_default(), Err(Error::Eof(_))));
}

#[test]
fn test_reparse_deterministic() -> Result<(), Error> {
    let tokens1 = tokenize("<% 1 + 2 * x.y %>")?;
    let tokens2 = tokenize("<% 1 + 2 * x.y %>")?;
    let (tree1, rest1) = Expression::parse(&tokens1, 1)?;
    let (tree2, rest2) = Expression::parse(&tokens2, 1)?;
    assert_eq!(tree1, tree2);
    assert_eq!(rest1, rest2);

    let mut context1 = Context::default();
    context1.set("v", Value::Integer(7))?;
    let mut context2 = Context::default();
    context2.set("v", Value::Integer(7))?;
    assert_eq!(
        "<% v * v %>".evaluate(&context1)?,
        "<% v * v %>".evaluate(&context2)?
    );
    Ok(())
}

#[test]
fn test_error_variants() {
    assert_eq!("<% 1 / 0 %>".evaluate_default(), Err(Error::DivisionByZero));
    assert_eq!(
        "<% 9223372036854775807 + 1 %>".evaluate_default(),
        Err(Error::Overflow)
    );
    assert_eq!("<% true + 1 %>".evaluate_default(), Err(Error::TypeError));
    assert_eq!(
        "<% \"a\".nope %>".evaluate_default(),
        Err(Error::UnknownMethod("nope".to_string()))
    );
    assert_eq!(
        "<% [1, 2].5 %>".evaluate_default(),
        Err(Error::ArgumentError("5".to_string()))
    );
    assert!(matches!(
        "<% @ %>".evaluate_default(),
        Err(Error::InvalidToken { .. })
    ));
    // A number outside the machine range cannot be lexed.
    assert!(matches!(
        "<% 99999999999999999999 %>".evaluate_default(),
        Err(Error::InvalidToken { .. })
    ));
    // A fraction with too many decimal digits cannot be lexed either.
    assert!(matches!(
        "<% 0.1234567890123456789 %>".evaluate_default(),
        Err(Error::InvalidToken { .. })
    ));
    // An unterminated string literal runs out of input.
    assert!(matches!("<% \"abc %>".evaluate_default(), Err(Error::Eof(_))));
    // An empty region hits the block-end sentinel where a term was due.
    assert!(matches!(
        "<% %>".evaluate_default(),
        Err(Error::ExpressionSyntax(_))
    ));
    assert!(matches!("".evaluate_default(), Err(Error::Eof(_))));
}

#[test]
fn test_number_formatting() -> Result<(), Error> {
    assert_eq!(
        "<% 42.to_string %>".evaluate_default()?,
        Value::String("42".into())
    );
    assert_eq!(
        "<% (0 - 42).to_string %>".evaluate_default()?,
        Value::String("-42".into())
    );
    assert_eq!(
        "<% (0 - 1.5).to_string %>".evaluate_default()?,
        Value::String("-1.5".into())
    );
    // A fraction with no finite decimal expansion is shown as a fraction.
    assert_eq!(
        "<% (1 / 3.0).to_string %>".evaluate_default()?,
        Value::String("1/3".into())
    );
    assert_eq!(
        "<% true.to_string %>".evaluate_default()?,
        Value::String("true".into())
    );
    Ok(())
}

#[test]
fn test_comparisons() -> Result<(), Error> {
    assert_eq!("<% 1 < 2.5 %>".evaluate_default()?, Value::Boolean(true));
    assert_eq!("<% 2 <= 2 %>".evaluate_default()?, Value::Boolean(true));
    assert_eq!("<% 3 > 4 %>".evaluate_default()?, Value::Boolean(false));
    assert_eq!("<% 0.5 >= 0.25 %>".evaluate_default()?, Value::Boolean(true));
    assert_eq!("<% \"a\" != \"b\" %>".evaluate_default()?, Value::Boolean(true));
    assert_eq!("<% \"a\" == \"a\" %>".evaluate_default()?, Value::Boolean(true));
    assert_eq!("<% null == null %>".evaluate_default()?, Value::Boolean(true));
    assert_eq!("<% \"a\" == 1 %>".evaluate_default(), Err(Error::TypeError));
    Ok(())
}

#[test]
fn test_integer_division_truncates() -> Result<(), Error> {
    assert_eq!("<% 7 / 2 %>".evaluate_default()?, Value::Integer(3));
    assert_eq!("<% (0 - 7) / 2 %>".evaluate_default()?, Value::Integer(-3));
    assert_eq!("<% 1 / 4.0 %>".evaluate_default()?, float(1, 4));
    Ok(())
}

#[test]
fn test_precedence_chains() -> Result<(), Error> {
    assert_eq!("<% 1 + 2 * 3 %>".evaluate_default()?, Value::Integer(7));
    assert_eq!("<% 10 - 2 - 3 %>".evaluate_default()?, Value::Integer(5));
    assert_eq!("<% 1 + 2 < 4 %>".evaluate_default()?, Value::Boolean(true));
    Ok(())
}

#[test]
fn test_list_concat() -> Result<(), Error> {
    assert_eq!(
        "<% [1, 2] + [3] %>".evaluate_default()?,
        Value::List(vec![Value::Integer(1), Value::Integer(2), Value::Integer(3)])
    );
    Ok(())
}

#[test]
fn test_no_short_circuit() -> Result<(), Error> {
    // Both operands are evaluated: an undefined variable on the right
    // fails the expression even though the left operand alone decides it.
    assert_eq!(
        "<% false && missing %>".evaluate_default(),
        Err(Error::UndefinedVariable("missing".to_string()))
    );
    Ok(())
}

#[test]
fn test_context_shadowing() -> Result<(), Error> {
    let mut context = Context::default();
    context.set("x", Value::Integer(1))?;
    context.set("x", Value::Integer(2))?;
    assert_eq!("<% x %>".evaluate(&context)?, Value::Integer(2));
    Ok(())
}

#[test]
fn test_rational_canonical_form() {
    assert_eq!(Rational::new(2, 4).unwrap(), Rational::new(1, 2).unwrap());
    assert_eq!(Rational::new(3, -6).unwrap(), Rational::new(-1, 2).unwrap());
    assert!(Rational::new(1, 0).is_none());
    assert_eq!(Rational::from_int(5), Rational::new(5, 1).unwrap());
}

#[test]
fn test_call_arguments_parse() -> Result<(), Error> {
    // The argument scan stops at the matching close bracket, so nested
    // parentheses stay inside one argument.
    let tokens = tokenize("<% 7.f((1)) %>")?;
    let (tree, rest) = Expression::parse(&tokens, 1)?;
    assert_eq!(
        tree,
        Expression::Function {
            term: Box::new(Expression::constant(Value::Integer(7))),
            name: "f".to_string(),
            args: vec![Expression::constant(Value::Integer(1))],
        }
    );
    // The block-end sentinel is left for the caller.
    assert_eq!(rest, tokens.len() - 1);
    Ok(())
}

#[test]
fn test_call_arguments_leave_trailing_tokens() -> Result<(), Error> {
    // Tokens after the argument list belong to the surrounding
    // expression: a call can stand on the left of an operator.
    let tokens = tokenize("<% x.f(1) + 2 %>")?;
    let (tree, _rest) = Expression::parse(&tokens, 1)?;
    assert_eq!(
        tree,
        Expression::Binary {
            left: Box::new(Expression::Function {
                term: Box::new(Expression::variable("x".to_string())),
                name: "f".to_string(),
                args: vec![Expression::constant(Value::Integer(1))],
            }),
            op: Op::Add,
            right: Box::new(Expression::constant(Value::Integer(2))),
        }
    );
    Ok(())
}

#[test]
fn test_call_arguments_chain() -> Result<(), Error> {
    // The call chain continues after an argument list.
    let tokens = tokenize("<% 2.f(1).to_string %>")?;
    let (tree, _rest) = Expression::parse(&tokens, 1)?;
    assert_eq!(
        tree,
        Expression::Function {
            term: Box::new(Expression::Function {
                term: Box::new(Expression::constant(Value::Integer(2))),
                name: "f".to_string(),
                args: vec![Expression::constant(Value::Integer(1))],
            }),
            name: "to_string".to_string(),
            args: vec![],
        }
    );
    Ok(())
}

#[test]
fn test_call_argument_splitting() -> Result<(), Error> {
    // Arguments split at top-level commas only: commas nested in square
    // or round brackets stay inside their argument.
    let tokens = tokenize("<% x.f([1, 2], (3), 4) %>")?;
    let (tree, _rest) = Expression::parse(&tokens, 1)?;
    assert_eq!(
        tree,
        Expression::Function {
            term: Box::new(Expression::variable("x".to_string())),
            name: "f".to_string(),
            args: vec![
                Expression::List {
                    terms: vec![
                        Expression::constant(Value::Integer(1)),
                        Expression::constant(Value::Integer(2)),
                    ],
                },
                Expression::constant(Value::Integer(3)),
                Expression::constant(Value::Integer(4)),
            ],
        }
    );
    Ok(())
}

#[test]
fn test_call_empty_arguments() {
    // An empty pair of brackets parses as a call with no arguments; the
    // dispatch table then reports the unknown name.
    assert_eq!(
        "<% 2.f() %>".evaluate_default(),
        Err(Error::UnknownMethod("f".to_string()))
    );
}

#[test]
fn test_call_arguments_unterminated() {
    // An argument list still open at the block end is a syntax error;
    // one still open at the end of the input runs out of tokens.
    assert!(matches!(
        "<% 2.f(1 %>".evaluate_default(),
        Err(Error::ExpressionSyntax(_))
    ));
    assert!(matches!("<% 2.f(1".evaluate_default(), Err(Error::Eof(_))));
}

#[test]
fn test_related() {}
