//! Parse and evaluate expressions.
//!
//! An expression is an operation that, when evaluated against a context,
//! produces a single value. The parser builds the tree from a token
//! sequence by recursive descent with pairwise precedence grouping; the
//! evaluator reduces the tree to one value. Both are specified exactly by
//! total functions over the token sequence and the tree, so parsing and
//! evaluation are deterministic by construction.

use crate::language::context::{wf_context, Context};
use crate::language::error::{Error, SpecError};
use crate::language::lexer::{
    view_tokens, wf_token, wf_tokens, SpecTokenCtx, Token, TokenWithContext,
};
use crate::language::op::{spec_binary, spec_op_from_token, spec_precedence, spec_unary, Op};
use crate::language::term::{spec_eval_term, view_term, wf_term, SpecTerm, Term};
use crate::language::value::{
    view_call_result, view_value, wf_value, SpecValue, Value,
};
use vstd::prelude::*;

verus! {

broadcast use vstd::std_specs::vec::axiom_vec_index_decreases;

/// The model of an expression tree.
pub enum SpecExpr {
    Binary { left: Box<SpecExpr>, op: Op, right: Box<SpecExpr> },
    Unary { op: Op, operand: Box<SpecExpr> },
    Term { term: SpecTerm },
    List { terms: Seq<SpecExpr> },
    Function { term: Box<SpecExpr>, name: Seq<char>, args: Seq<SpecExpr> },
}

/// An expression tree: binary and unary operations, leaf terms, list
/// literals, and method-style calls, each owning its children.
#[derive(Debug, PartialEq)]
pub enum Expression {
    /// A binary operation over two sub-expressions, e.g. `5 + 10`.
    Binary { left: Box<Expression>, op: Op, right: Box<Expression> },
    /// A unary operation over one sub-expression, e.g. `!true`.
    Unary { op: Op, operand: Box<Expression> },
    /// A leaf: a constant or a variable reference.
    Term { term: Term },
    /// A list literal, e.g. `[1, 2, variable]`.
    List { terms: Vec<Expression> },
    /// A method-style call on an expression, e.g. `5.to_string`.
    Function { term: Box<Expression>, name: String, args: Vec<Expression> },
}

/// The models of a sequence of expressions, elementwise.
pub open spec fn view_exprs(s: Seq<Expression>) -> Seq<SpecExpr>
    decreases s,
{
    if s.len() == 0 {
        Seq::empty()
    } else {
        seq![view_expr(s[0])] + view_exprs(s.drop_first())
    }
}

/// The model of one expression.
pub open spec fn view_expr(e: Expression) -> SpecExpr
    decreases e,
{
    match e {
        Expression::Binary { left, op, right } => SpecExpr::Binary {
            left: Box::new(view_expr(*left)),
            op,
            right: Box::new(view_expr(*right)),
        },
        Expression::Unary { op, operand } => SpecExpr::Unary {
            op,
            operand: Box::new(view_expr(*operand)),
        },
        Expression::Term { term } => SpecExpr::Term { term: view_term(term) },
        Expression::List { terms } => SpecExpr::List { terms: view_exprs(terms@) },
        Expression::Function { term, name, args } => SpecExpr::Function {
            term: Box::new(view_expr(*term)),
            name: name@,
            args: view_exprs(args@),
        },
    }
}

/// The model of an expression sequence is its elementwise model.
pub proof fn lemma_view_exprs(s: Seq<Expression>)
    ensures
        view_exprs(s).len() == s.len(),
        forall|i: int| 0 <= i < s.len() ==> #[trigger] view_exprs(s)[i] == view_expr(s[i]),
    decreases s,
{
    if s.len() > 0 {
        lemma_view_exprs(s.drop_first());
    }
}

impl DeepView for Expression {
    type V = SpecExpr;

    open spec fn deep_view(&self) -> SpecExpr {
        view_expr(*self)
    }
}

/// Validity of every expression in a sequence.
pub open spec fn wf_exprs(s: Seq<Expression>) -> bool {
    forall|i: int| 0 <= i < s.len() ==> wf_expr(#[trigger] s[i])
}

/// Validity of an expression: every literal value inside it is valid.
pub open spec fn wf_expr(e: Expression) -> bool
    decreases e,
{
    match e {
        Expression::Binary { left, op, right } => wf_expr(*left) && wf_expr(*right),
        Expression::Unary { op, operand } => wf_expr(*operand),
        Expression::Term { term } => wf_term(term),
        Expression::List { terms } => forall|i: int|
            0 <= i < terms@.len() ==> wf_expr(#[trigger] terms@[i]),
        Expression::Function { term, name, args } => wf_expr(*term) && forall|i: int|
            0 <= i < args@.len() ==> wf_expr(#[trigger] args@[i]),
    }
}

/// What evaluating each expression of a sequence returns, in order; the
/// first error wins.
pub open spec fn spec_eval_list(
    s: Seq<SpecExpr>,
    ctx: Seq<(Seq<char>, SpecValue)>,
) -> Result<Seq<SpecValue>, SpecError>
    decreases s, 1int,
{
    if s.len() == 0 {
        Ok(Seq::empty())
    } else {
        match spec_eval_list(s.drop_last(), ctx) {
            Ok(init) => match spec_eval(s[s.len() - 1], ctx) {
                Ok(v) => Ok(init.push(v)),
                Err(e) => Err(e),
            },
            Err(e) => Err(e),
        }
    }
}

/// What evaluating an expression against a context returns.
///
/// A term resolves as a constant or a context lookup; a binary node
/// evaluates its left operand fully, then its right operand, then applies
/// the operator — both operands are always evaluated, even for `&&` and
/// `||`; a unary node evaluates its operand and applies the operator; a
/// list evaluates every element in order; a call evaluates its receiver,
/// then its arguments in order, then dispatches by name. The first error
/// anywhere is the result.
pub open spec fn spec_eval(
    e: SpecExpr,
    ctx: Seq<(Seq<char>, SpecValue)>,
) -> Result<SpecValue, SpecError>
    decreases e, 0int,
{
    match e {
        SpecExpr::Term { term } => spec_eval_term(term, ctx),
        SpecExpr::Binary { left, op, right } => match spec_eval(*left, ctx) {
            Ok(l) => match spec_eval(*right, ctx) {
                Ok(r) => spec_binary(op, l, r),
                Err(err) => Err(err),
            },
            Err(err) => Err(err),
        },
        SpecExpr::Unary { op, operand } => match spec_eval(*operand, ctx) {
            Ok(v) => spec_unary(op, v),
            Err(err) => Err(err),
        },
        SpecExpr::List { terms } => match spec_eval_list(terms, ctx) {
            Ok(vs) => Ok(SpecValue::List(vs)),
            Err(err) => Err(err),
        },
        SpecExpr::Function { term, name, args } => match spec_eval(*term, ctx) {
            Ok(base) => match spec_eval_list(args, ctx) {
                Ok(vs) => crate::language::value::spec_call(base, name, vs),
                Err(err) => Err(err),
            },
            Err(err) => Err(err),
        },
    }
}

/// Evaluates each expression of a sequence in order, stopping at the
/// first error.
fn evaluate_list(terms: &Vec<Expression>, context: &Context) -> (r: Result<Vec<Value>, Error>)
    requires
        wf_exprs(terms@),
        wf_context(context),
    ensures
        match r {
            Ok(vs) => spec_eval_list(view_exprs(terms@), context.deep_view()) == Ok::<
                Seq<SpecValue>,
                SpecError,
            >(crate::language::value::view_values(vs@)) && crate::language::value::wf_values(
                vs@,
            ),
            Err(e) => spec_eval_list(view_exprs(terms@), context.deep_view()) == Err::<
                Seq<SpecValue>,
                SpecError,
            >(e.deep_view()),
        },
    decreases terms@, 1int,
{
    let ghost sviews = view_exprs(terms@);
    proof {
        lemma_view_exprs(terms@);
    }
    let mut out: Vec<Value> = Vec::new();
    let mut i: usize = 0;
    while i < terms.len()
        invariant
            wf_exprs(terms@),
            wf_context(context),
            sviews == view_exprs(terms@),
            sviews.len() == terms@.len(),
            forall|j: int| 0 <= j < terms@.len() ==> #[trigger] sviews[j] == view_expr(terms@[j]),
            i <= terms@.len(),
            spec_eval_list(sviews.take(i as int), context.deep_view()) == Ok::<
                Seq<SpecValue>,
                SpecError,
            >(crate::language::value::view_values(out@)),
            crate::language::value::wf_values(out@),
        decreases terms@.len() - i,
    {
        proof {
            assert(decreases_to!(terms@ => terms@[i as int]));
        }
        let v = match evaluate_expr(&terms[i], context) {
            Ok(v) => v,
            Err(e) => {
                proof {
                    lemma_eval_list_prefix_error(sviews, context.deep_view(), i as int);
                }
                return Err(e);
            },
        };
        let ghost outbefore = out@;
        out.push(v);
        i = i + 1;
        proof {
            assert(sviews.take(i as int).drop_last() =~= sviews.take(i as int - 1));
            crate::language::value::lemma_view_values(outbefore);
            crate::language::value::lemma_view_values(out@);
            assert(crate::language::value::view_values(out@) =~= crate::language::value::view_values(
                outbefore,
            ).push(v.deep_view()));
        }
    }
    proof {
        assert(sviews.take(terms@.len() as int) =~= sviews);
    }
    Ok(out)
}

/// When a prefix evaluates cleanly and the next element fails, the whole
/// sequence fails with that same error.
proof fn lemma_eval_list_prefix_error(
    s: Seq<SpecExpr>,
    ctx: Seq<(Seq<char>, SpecValue)>,
    i: int,
)
    requires
        0 <= i < s.len(),
        spec_eval_list(s.take(i), ctx) is Ok,
        spec_eval(s[i], ctx) is Err,
    ensures
        spec_eval_list(s, ctx) == Err::<Seq<SpecValue>, SpecError>(
            spec_eval(s[i], ctx)->Err_0,
        ),
    decreases s.len(),
{
    if s.len() - 1 > i {
        assert(s.drop_last().take(i) =~= s.take(i));
        lemma_eval_list_prefix_error(s.drop_last(), ctx, i);
    } else {
        assert(s.take(i) =~= s.drop_last());
    }
}

/// Evaluates one expression against a context.
fn evaluate_expr(e: &Expression, context: &Context) -> (r: Result<Value, Error>)
    requires
        wf_expr(*e),
        wf_context(context),
    ensures
        view_call_result(r) == spec_eval(e.deep_view(), context.deep_view()),
        r is Ok ==> wf_value(r->Ok_0),
    decreases *e, 0int,
{
    match e {
        Expression::Term { term } => term.evaluate(context),
        Expression::Binary { left, op, right } => {
            let l = match (&**left).evaluate(context) {
                Ok(v) => v,
                Err(err) => {
                    return Err(err);
                },
            };
            let r = match (&**right).evaluate(context) {
                Ok(v) => v,
                Err(err) => {
                    return Err(err);
                },
            };
            op.evaluate_binary(&l, &r)
        },
        Expression::Unary { op, operand } => {
            let v = match (&**operand).evaluate(context) {
                Ok(v) => v,
                Err(err) => {
                    return Err(err);
                },
            };
            op.evaluate_unary(&v)
        },
        Expression::List { terms } => match evaluate_list(terms, context) {
            Ok(vs) => Ok(Value::List(vs)),
            Err(err) => Err(err),
        },
        Expression::Function { term, name, args } => {
            let base = match (&**term).evaluate(context) {
                Ok(v) => v,
                Err(err) => {
                    return Err(err);
                },
            };
            let vs = match evaluate_list(args, context) {
                Ok(vs) => vs,
                Err(err) => {
                    return Err(err);
                },
            };
            base.call(name, &vs)
        },
    }
}

impl Expression {
    /// A constant leaf expression.
    pub fn constant(value: Value) -> (r: Expression)
        ensures
            r == (Expression::Term { term: Term::Constant(value) }),
    {
        Expression::Term { term: Term::constant(value) }
    }

    /// A variable leaf expression.
    pub fn variable(variable: String) -> (r: Expression)
        ensures
            r == (Expression::Term { term: Term::Variable(variable) }),
    {
        Expression::Term { term: Term::variable(variable) }
    }

    /// Evaluates the expression against a context, producing one value or
    /// the first error encountered.
    pub fn evaluate(&self, context: &Context) -> (r: Result<Value, Error>)
        requires
            wf_expr(*self),
            wf_context(context),
        ensures
            view_call_result(r) == spec_eval(self.deep_view(), context.deep_view()),
            r is Ok ==> wf_value(r->Ok_0),
        decreases *self, 1int,
    {
        evaluate_expr(self, context)
    }
}

/// A parse position reported by a sub-parse, forced into the range the
/// grammar guarantees; real results always lie inside it, so the clamp
/// only serves the termination argument.
pub open spec fn step_pos(lo: int, hi: int, p: int) -> int {
    if lo < p <= hi {
        p
    } else {
        hi
    }
}

/// The position of the round bracket that closes the group opened before
/// `pos`, counting nested brackets; a block-end sentinel inside the group
/// is a syntax error, and a group left open runs out of tokens.
pub open spec fn scan_round_spec(
    toks: Seq<crate::language::lexer::SpecTokenCtx>,
    pos: int,
    count: int,
) -> Result<int, SpecError>
    decreases toks.len() - pos, 0int, 0int,
{
    if pos < 0 || pos >= toks.len() {
        Err(SpecError::Eof("round bracket start"@))
    } else {
        match toks[pos].token {
            crate::language::lexer::SpecToken::RoundBracketStart => scan_round_spec(
                toks,
                pos + 1,
                count + 1,
            ),
            crate::language::lexer::SpecToken::RoundBracketEnd => if count <= 1 {
                Ok(pos)
            } else {
                scan_round_spec(toks, pos + 1, count - 1)
            },
            crate::language::lexer::SpecToken::BlockEnd => Err(
                SpecError::ExpressionSyntax(toks[pos]),
            ),
            _ => scan_round_spec(toks, pos + 1, count),
        }
    }
}

/// The elements of a list literal: literal values and variables separated
/// by commas, up to the closing square bracket. Any other token inside is
/// a syntax error.
pub open spec fn list_spec(
    toks: Seq<crate::language::lexer::SpecTokenCtx>,
    pos: int,
) -> Result<(Seq<SpecExpr>, int), SpecError>
    decreases toks.len() - pos, 0int, 0int,
{
    if pos < 0 || pos >= toks.len() {
        Err(SpecError::Eof("term token"@))
    } else {
        match toks[pos].token {
            crate::language::lexer::SpecToken::SquareBracketEnd => Ok(
                (Seq::empty(), pos + 1),
            ),
            crate::language::lexer::SpecToken::Comma => list_spec(toks, pos + 1),
            crate::language::lexer::SpecToken::Value(v) => match list_spec(toks, pos + 1) {
                Ok((rest, p)) => Ok(
                    (seq![SpecExpr::Term { term: SpecTerm::Constant(v) }] + rest, p),
                ),
                Err(e) => Err(e),
            },
            crate::language::lexer::SpecToken::Variable(name) => match list_spec(
                toks,
                pos + 1,
            ) {
                Ok((rest, p)) => Ok(
                    (seq![SpecExpr::Term { term: SpecTerm::Variable(name) }] + rest, p),
                ),
                Err(e) => Err(e),
            },
            _ => Err(SpecError::ExpressionSyntax(toks[pos])),
        }
    }
}

/// The argument list of a call, read from just after its opening round
/// bracket: the tokens strictly between the bracket and its matching
/// close — found by depth counting, as for a parenthesised group — are
/// split at top-level commas and each piece is parsed as a full
/// expression. An empty pair of brackets is a call with no arguments.
/// The position after the closing bracket is returned, so the tokens
/// that follow the call stay with the caller.
pub open spec fn args_spec(
    toks: Seq<crate::language::lexer::SpecTokenCtx>,
    pos: int,
) -> Result<(Seq<SpecExpr>, int), SpecError>
    decreases toks.len() - pos, 0int, 1int,
{
    if pos < 0 || pos >= toks.len() {
        Err(SpecError::Eof("round bracket start"@))
    } else {
        match scan_round_spec(toks, pos, 1) {
            Err(err) => Err(err),
            Ok(close_raw) => {
                let close = if pos <= close_raw < toks.len() {
                    close_raw
                } else {
                    pos
                };
                if close == pos {
                    Ok((Seq::empty(), close + 1))
                } else {
                    match split_args_spec(toks.subrange(pos, close), 0, 0, 0) {
                        Ok(args) => Ok((args, close + 1)),
                        Err(err) => Err(err),
                    }
                }
            },
        }
    }
}

/// Splits an argument region at top-level commas and parses each piece
/// as a full expression. The depth counts round and square brackets
/// opened since the region began; a comma separates arguments only at
/// depth zero. The piece after the last top-level comma runs to the end
/// of the region; an empty piece fails when parsed, so a stray comma is
/// an error.
pub open spec fn split_args_spec(
    inside: Seq<crate::language::lexer::SpecTokenCtx>,
    pos: int,
    buf_start: int,
    depth: int,
) -> Result<Seq<SpecExpr>, SpecError>
    decreases inside.len() - buf_start, inside.len() - pos, 3int,
{
    if !(0 <= buf_start <= pos <= inside.len()) {
        Ok(Seq::empty())
    } else if pos >= inside.len() {
        match parse_spec(inside.subrange(buf_start, inside.len() as int), 0) {
            Ok((e, _)) => Ok(seq![e]),
            Err(err) => Err(err),
        }
    } else {
        match inside[pos].token {
            crate::language::lexer::SpecToken::Comma => if depth == 0 {
                match parse_spec(inside.subrange(buf_start, pos), 0) {
                    Ok((e, _)) => match split_args_spec(inside, pos + 1, pos + 1, 0) {
                        Ok(rest) => Ok(seq![e] + rest),
                        Err(err) => Err(err),
                    },
                    Err(err) => Err(err),
                }
            } else {
                split_args_spec(inside, pos + 1, buf_start, depth)
            },
            crate::language::lexer::SpecToken::RoundBracketStart => split_args_spec(
                inside,
                pos + 1,
                buf_start,
                depth + 1,
            ),
            crate::language::lexer::SpecToken::RoundBracketEnd => split_args_spec(
                inside,
                pos + 1,
                buf_start,
                depth - 1,
            ),
            crate::language::lexer::SpecToken::SquareBracketStart => split_args_spec(
                inside,
                pos + 1,
                buf_start,
                depth + 1,
            ),
            crate::language::lexer::SpecToken::SquareBracketEnd => split_args_spec(
                inside,
                pos + 1,
                buf_start,
                depth - 1,
            ),
            _ => split_args_spec(inside, pos + 1, buf_start, depth),
        }
    }
}

/// The trailing call chain after an expression: while a dot follows, the
/// next identifier (or integer, read as an index) names a call on the
/// expression built so far, with arguments when a round bracket follows
/// the name; the chain continues after the argument list's closing
/// bracket.
pub open spec fn function_spec(
    expr: SpecExpr,
    toks: Seq<crate::language::lexer::SpecTokenCtx>,
    pos: int,
) -> Result<(SpecExpr, int), SpecError>
    decreases toks.len() - pos, 0int, 0int,
{
    if pos < 0 || pos >= toks.len() {
        Ok((expr, pos))
    } else if !(toks[pos].token is Dot) {
        Ok((expr, pos))
    } else if pos + 1 >= toks.len() {
        Err(SpecError::Eof("accessor name"@))
    } else {
        match toks[pos + 1].token {
            crate::language::lexer::SpecToken::Variable(name) => if pos + 2 < toks.len()
                && toks[pos + 2].token is RoundBracketStart {
                match args_spec(toks, pos + 3) {
                    Ok((args, p_after)) => function_spec(
                        SpecExpr::Function { term: Box::new(expr), name, args },
                        toks,
                        step_pos(pos, toks.len() as int, p_after),
                    ),
                    Err(err) => Err(err),
                }
            } else {
                function_spec(
                    SpecExpr::Function { term: Box::new(expr), name, args: Seq::empty() },
                    toks,
                    pos + 2,
                )
            },
            crate::language::lexer::SpecToken::Value(SpecValue::Integer(n)) => function_spec(
                SpecExpr::Function {
                    term: Box::new(expr),
                    name: crate::text::spec_int_str(n),
                    args: Seq::empty(),
                },
                toks,
                pos + 2,
            ),
            _ => Err(SpecError::ExpressionSyntax(toks[pos + 1])),
        }
    }
}

/// One term of an expression: a unary operator applied to a term, a
/// parenthesised sub-expression, a list literal, a literal value or a
/// variable — each followed by its trailing call chain.
pub open spec fn term_spec(
    toks: Seq<crate::language::lexer::SpecTokenCtx>,
    pos: int,
) -> Result<(SpecExpr, int), SpecError>
    decreases toks.len() - pos, 0int, 1int,
{
    if pos < 0 || pos >= toks.len() {
        Err(SpecError::Eof("term next"@))
    } else {
        match toks[pos].token {
            crate::language::lexer::SpecToken::Not => match term_spec(toks, pos + 1) {
                Ok((t, p)) => Ok(
                    (SpecExpr::Unary { op: Op::Not, operand: Box::new(t) }, p),
                ),
                Err(err) => Err(err),
            },
            crate::language::lexer::SpecToken::Minus => match term_spec(toks, pos + 1) {
                Ok((t, p)) => Ok(
                    (SpecExpr::Unary { op: Op::Sub, operand: Box::new(t) }, p),
                ),
                Err(err) => Err(err),
            },
            crate::language::lexer::SpecToken::Plus => match term_spec(toks, pos + 1) {
                Ok((t, p)) => Ok(
                    (SpecExpr::Unary { op: Op::Add, operand: Box::new(t) }, p),
                ),
                Err(err) => Err(err),
            },
            crate::language::lexer::SpecToken::RoundBracketStart => match scan_round_spec(
                toks,
                pos + 1,
                1,
            ) {
                Ok(close_raw) => {
                    let close = if pos + 1 <= close_raw && close_raw < toks.len() {
                        close_raw
                    } else {
                        pos + 1
                    };
                    match parse_spec(toks.subrange(pos + 1, close), 0) {
                        Ok((e, _)) => function_spec(e, toks, close + 1),
                        Err(err) => Err(err),
                    }
                },
                Err(err) => Err(err),
            },
            crate::language::lexer::SpecToken::Variable(name) => function_spec(
                SpecExpr::Term { term: SpecTerm::Variable(name) },
                toks,
                pos + 1,
            ),
            crate::language::lexer::SpecToken::Value(v) => function_spec(
                SpecExpr::Term { term: SpecTerm::Constant(v) },
                toks,
                pos + 1,
            ),
            crate::language::lexer::SpecToken::SquareBracketStart => match list_spec(
                toks,
                pos + 1,
            ) {
                Ok((terms, p)) => function_spec(
                    SpecExpr::List { terms },
                    toks,
                    step_pos(pos, toks.len() as int, p),
                ),
                Err(err) => Err(err),
            },
            _ => Err(SpecError::ExpressionSyntax(toks[pos])),
        }
    }
}

/// A whole expression: a left term, optionally an operator and a right
/// term, and then either the end of the stream, a block-end sentinel, a
/// second operator — grouped by precedence, a tighter second operator
/// binding to the right — or, after a complete binary expression, any
/// other token is a syntax error.
pub open spec fn parse_spec(
    toks: Seq<crate::language::lexer::SpecTokenCtx>,
    pos: int,
) -> Result<(SpecExpr, int), SpecError>
    decreases toks.len() - pos, 0int, 2int,
{
    match term_spec(toks, pos) {
        Err(err) => Err(err),
        Ok((left, p1raw)) => {
            let p1 = step_pos(pos, toks.len() as int, p1raw);
            if p1 >= toks.len() {
                Ok((left, p1))
            } else {
                match spec_op_from_token(toks[p1].token) {
                    None => Ok((left, p1)),
                    Some(op) => match term_spec(toks, p1 + 1) {
                        Err(err) => Err(err),
                        Ok((right, p2raw)) => {
                            let p2 = step_pos(p1 + 1, toks.len() as int, p2raw);
                            if p2 >= toks.len() {
                                Ok(
                                    (
                                        SpecExpr::Binary {
                                            left: Box::new(left),
                                            op,
                                            right: Box::new(right),
                                        },
                                        p2,
                                    ),
                                )
                            } else if toks[p2].token is BlockEnd {
                                Ok(
                                    (
                                        SpecExpr::Binary {
                                            left: Box::new(left),
                                            op,
                                            right: Box::new(right),
                                        },
                                        p2,
                                    ),
                                )
                            } else {
                                match spec_op_from_token(toks[p2].token) {
                                    None => Err(SpecError::ExpressionSyntax(toks[p2])),
                                    Some(second_op) => match parse_spec(toks, p2 + 1) {
                                        Err(err) => Err(err),
                                        Ok((right2, p3)) => if spec_precedence(second_op)
                                            < spec_precedence(op) {
                                            Ok(
                                                (
                                                    SpecExpr::Binary {
                                                        left: Box::new(left),
                                                        op,
                                                        right: Box::new(
                                                            SpecExpr::Binary {
                                                                left: Box::new(right),
                                                                op: second_op,
                                                                right: Box::new(right2),
                                                            },
                                                        ),
                                                    },
                                                    p3,
                                                ),
                                            )
                                        } else {
                                            Ok(
                                                (
                                                    SpecExpr::Binary {
                                                        left: Box::new(
                                                            SpecExpr::Binary {
                                                                left: Box::new(left),
                                                                op,
                                                                right: Box::new(right),
                                                            },
                                                        ),
                                                        op: second_op,
                                                        right: Box::new(right2),
                                                    },
                                                    p3,
                                                ),
                                            )
                                        },
                                    },
                                }
                            }
                        },
                    },
                }
            }
        },
    }
}

/// The model of a parse result.
pub open spec fn view_parse_result(r: Result<(Expression, usize), Error>) -> Result<
    (SpecExpr, int),
    SpecError,
> {
    match r {
        Ok((e, p)) => Ok((view_expr(e), p as int)),
        Err(e) => Err(crate::language::error::view_error(e)),
    }
}

/// Copies a range of positioned tokens.
fn copy_range(tokens: &Vec<TokenWithContext>, lo: usize, hi: usize) -> (r: Vec<
    TokenWithContext,
>)
    requires
        lo <= hi <= tokens@.len(),
    ensures
        view_tokens(r@) == view_tokens(tokens@).subrange(lo as int, hi as int),
        wf_tokens(tokens@) ==> wf_tokens(r@),
{
    let mut out: Vec<TokenWithContext> = Vec::new();
    let mut i: usize = lo;
    while i < hi
        invariant
            lo <= i <= hi <= tokens@.len(),
            out@.len() == i - lo,
            forall|j: int|
                0 <= j < out@.len() ==> #[trigger] out@[j].deep_view() == tokens@[lo
                    + j].deep_view(),
            forall|j: int|
                0 <= j < out@.len() ==> (wf_token(#[trigger] tokens@[lo + j].token)
                    ==> wf_token(out@[j].token)),
        decreases hi - i,
    {
        out.push(tokens[i].copy());
        i = i + 1;
    }
    proof {
        assert(view_tokens(out@) =~= view_tokens(tokens@).subrange(lo as int, hi as int));
        if wf_tokens(tokens@) {
            assert forall|j: int| 0 <= j < out@.len() implies wf_token(
                #[trigger] out@[j].token,
            ) by {
                assert(wf_token(tokens@[lo + j].token));
            }
        }
    }
    out
}

/// Finds the round bracket that closes the group opened just before
/// `pos`, counting nested brackets.
fn scan_round(tokens: &Vec<TokenWithContext>, pos: usize) -> (r: Result<usize, Error>)
    requires
        pos <= tokens@.len(),
    ensures
        match r {
            Ok(j) => scan_round_spec(view_tokens(tokens@), pos as int, 1) == Ok::<
                int,
                SpecError,
            >(j as int) && pos <= j < tokens@.len(),
            Err(e) => scan_round_spec(view_tokens(tokens@), pos as int, 1) == Err::<
                int,
                SpecError,
            >(e.deep_view()),
        },
{
    let n = tokens.len();
    let mut i: usize = pos;
    let mut count: u128 = 1;
    while true
        invariant
            n == tokens@.len(),
            pos <= i <= n,
            1 <= count <= 1 + i - pos,
            scan_round_spec(view_tokens(tokens@), pos as int, 1) == scan_round_spec(
                view_tokens(tokens@),
                i as int,
                count as int,
            ),
        decreases n - i,
    {
        if i >= n {
            return Err(Error::Eof("round bracket start"));
        }
        match &tokens[i].token {
            Token::RoundBracketStart => {
                count = count + 1;
                i = i + 1;
            },
            Token::RoundBracketEnd => {
                if count <= 1 {
                    return Ok(i);
                }
                count = count - 1;
                i = i + 1;
            },
            Token::BlockEnd => {
                return Err(Error::ExpressionSyntax(tokens[i].copy()));
            },
            _ => {
                i = i + 1;
            },
        }
    }
    Err(Error::Eof("round bracket start"))
}

/// Parses the elements of a list literal, after the opening bracket.
fn list_items(tokens: &Vec<TokenWithContext>, pos: usize) -> (r: Result<
    (Vec<Expression>, usize),
    Error,
>)
    requires
        pos <= tokens@.len(),
    ensures
        match r {
            Ok((terms, p)) => list_spec(view_tokens(tokens@), pos as int) == Ok::<
                (Seq<SpecExpr>, int),
                SpecError,
            >((view_exprs(terms@), p as int)) && pos < p <= tokens@.len() && (wf_tokens(
                tokens@,
            ) ==> wf_exprs(terms@)),
            Err(e) => list_spec(view_tokens(tokens@), pos as int) == Err::<
                (Seq<SpecExpr>, int),
                SpecError,
            >(e.deep_view()),
        },
    decreases tokens@.len() - pos,
{
    if pos >= tokens.len() {
        return Err(Error::Eof("term token"));
    }
    match &tokens[pos].token {
        Token::SquareBracketEnd => Ok((Vec::new(), pos + 1)),
        Token::Comma => list_items(tokens, pos + 1),
        Token::Value(v) => {
            let (rest, p) = match list_items(tokens, pos + 1) {
                Ok(ok) => ok,
                Err(e) => {
                    return Err(e);
                },
            };
            let mut terms = rest;
            let ghost restview = terms@;
            let e = Expression::constant(crate::language::value::clone_value(v));
            terms.insert(0, e);
            proof {
                assert(terms@.drop_first() =~= restview);
                assert(view_exprs(terms@) =~= seq![view_expr(terms@[0])] + view_exprs(
                    restview,
                ));
                lemma_view_exprs(terms@);
                lemma_view_exprs(restview);
            }
            Ok((terms, p))
        },
        Token::Variable(name) => {
            let (rest, p) = match list_items(tokens, pos + 1) {
                Ok(ok) => ok,
                Err(e) => {
                    return Err(e);
                },
            };
            let mut terms = rest;
            let ghost restview = terms@;
            let e = Expression::variable(name.clone());
            terms.insert(0, e);
            proof {
                assert(terms@.drop_first() =~= restview);
                assert(view_exprs(terms@) =~= seq![view_expr(terms@[0])] + view_exprs(
                    restview,
                ));
                lemma_view_exprs(terms@);
                lemma_view_exprs(restview);
            }
            Ok((terms, p))
        },
        _ => Err(Error::ExpressionSyntax(tokens[pos].copy())),
    }
}

/// Reads a call's argument list: finds the matching closing bracket,
/// splits the region inside it at top-level commas, and parses each
/// piece. Returns the arguments and the position after the close.
#[verifier::rlimit(60)]
fn args_scan(tokens: &Vec<TokenWithContext>, pos: usize) -> (r: Result<
    (Vec<Expression>, usize),
    Error,
>)
    requires
        pos <= tokens@.len(),
    ensures
        match r {
            Ok((args, p)) => args_spec(view_tokens(tokens@), pos as int) == Ok::<
                (Seq<SpecExpr>, int),
                SpecError,
            >((view_exprs(args@), p as int)) && pos < p <= tokens@.len() && (wf_tokens(
                tokens@,
            ) ==> wf_exprs(args@)),
            Err(e) => args_spec(view_tokens(tokens@), pos as int) == Err::<
                (Seq<SpecExpr>, int),
                SpecError,
            >(e.deep_view()),
        },
    decreases tokens@.len() - pos, 0int, 1int,
{
    let n = tokens.len();
    let close = match scan_round(tokens, pos) {
        Ok(j) => j,
        Err(err) => {
            return Err(err);
        },
    };
    proof {
        assert(close < n);
        assert(scan_round_spec(view_tokens(tokens@), pos as int, 1) == Ok::<int, SpecError>(
            close as int,
        ));
    }
    if close == pos {
        proof {
            assert(view_exprs(Seq::<Expression>::empty()) =~= Seq::<SpecExpr>::empty());
        }
        return Ok((Vec::new(), close + 1));
    }
    let inside = copy_range(tokens, pos, close);
    proof {
        assert(inside@.len() == view_tokens(inside@).len());
        assert(inside@.len() == close - pos);
    }
    match split_args(&inside, 0, 0, 0) {
        Ok(args) => Ok((args, close + 1)),
        Err(err) => Err(err),
    }
}

/// Splits an argument region at top-level commas — counting round and
/// square bracket depth — and parses each piece as a full expression.
fn split_args(inside: &Vec<TokenWithContext>, pos: usize, buf_start: usize, depth: i128) -> (r:
    Result<Vec<Expression>, Error>)
    requires
        buf_start <= pos <= inside@.len(),
        -(pos as int) <= depth as int <= pos as int,
    ensures
        match r {
            Ok(args) => split_args_spec(
                view_tokens(inside@),
                pos as int,
                buf_start as int,
                depth as int,
            ) == Ok::<Seq<SpecExpr>, SpecError>(view_exprs(args@)) && (wf_tokens(inside@)
                ==> wf_exprs(args@)),
            Err(e) => split_args_spec(
                view_tokens(inside@),
                pos as int,
                buf_start as int,
                depth as int,
            ) == Err::<Seq<SpecExpr>, SpecError>(e.deep_view()),
        },
    decreases inside@.len() - buf_start, inside@.len() - pos, 3int,
{
    if pos >= inside.len() {
        let buf = copy_range(inside, buf_start, inside.len());
        proof {
            assert(buf@.len() == view_tokens(buf@).len());
            assert(buf@.len() == inside@.len() - buf_start);
        }
        let (e, _rest) = match Expression::parse(&buf, 0) {
            Ok(ok) => ok,
            Err(err) => {
                return Err(err);
            },
        };
        let mut args: Vec<Expression> = Vec::new();
        args.push(e);
        proof {
            lemma_view_exprs(args@);
            assert(view_exprs(args@) =~= seq![view_expr(e)]);
        }
        return Ok(args);
    }
    let step: i128 = match &inside[pos].token {
        Token::Comma => {
            if depth == 0 {
                let buf = copy_range(inside, buf_start, pos);
                proof {
                    assert(buf@.len() == view_tokens(buf@).len());
                    assert(buf@.len() == pos - buf_start);
                }
                let (e, _rest) = match Expression::parse(&buf, 0) {
                    Ok(ok) => ok,
                    Err(err) => {
                        return Err(err);
                    },
                };
                let rest = match split_args(inside, pos + 1, pos + 1, 0) {
                    Ok(ok) => ok,
                    Err(err) => {
                        return Err(err);
                    },
                };
                let mut args = rest;
                let ghost restview = args@;
                args.insert(0, e);
                proof {
                    assert(args@.drop_first() =~= restview);
                    assert(view_exprs(args@) =~= seq![view_expr(args@[0])] + view_exprs(
                        restview,
                    ));
                    lemma_view_exprs(args@);
                    lemma_view_exprs(restview);
                }
                return Ok(args);
            }
            0
        },
        Token::RoundBracketStart => 1,
        Token::RoundBracketEnd => -1,
        Token::SquareBracketStart => 1,
        Token::SquareBracketEnd => -1,
        _ => 0,
    };
    split_args(inside, pos + 1, buf_start, depth + step)
}

impl Expression {
    /// Absorbs the trailing call chain after a parsed expression: while
    /// a dot follows, wraps the expression built so far in a call named
    /// by the next identifier (or integer, read as an index), with
    /// arguments when a round bracket follows the name.
    pub fn function(expr: Expression, tokens: &Vec<TokenWithContext>, pos: usize) -> (r: Result<
        (Expression, usize),
        Error,
    >)
        requires
            pos <= tokens@.len(),
        ensures
            match r {
                Ok((e, p)) => function_spec(expr.deep_view(), view_tokens(tokens@), pos as int)
                    == Ok::<(SpecExpr, int), SpecError>((view_expr(e), p as int)) && pos <= p
                    <= tokens@.len() && ((wf_tokens(tokens@) && wf_expr(expr)) ==> wf_expr(e)),
                Err(e) => function_spec(expr.deep_view(), view_tokens(tokens@), pos as int)
                    == Err::<(SpecExpr, int), SpecError>(e.deep_view()),
            },
        decreases tokens@.len() - pos, 0int, 0int,
    {
        if pos >= tokens.len() {
            return Ok((expr, pos));
        }
        let is_dot = match &tokens[pos].token {
            Token::Dot => true,
            _ => false,
        };
        if !is_dot {
            return Ok((expr, pos));
        }
        if pos + 1 >= tokens.len() {
            return Err(Error::Eof("accessor name"));
        }
        match &tokens[pos + 1].token {
            Token::Variable(name) => {
                let has_args = pos + 2 < tokens.len() && match &tokens[pos + 2].token {
                    Token::RoundBracketStart => true,
                    _ => false,
                };
                if has_args {
                    let (args, p_after) = match args_scan(tokens, pos + 3) {
                        Ok(ok) => ok,
                        Err(err) => {
                            return Err(err);
                        },
                    };
                    let next = Expression::Function {
                        term: Box::new(expr),
                        name: name.clone(),
                        args,
                    };
                    proof {
                        assert(step_pos(pos as int, tokens@.len() as int, p_after as int)
                            == p_after as int);
                    }
                    Expression::function(next, tokens, p_after)
                } else {
                    let next = Expression::Function {
                        term: Box::new(expr),
                        name: name.clone(),
                        args: Vec::new(),
                    };
                    proof {
                        assert(view_exprs(Seq::<Expression>::empty()) =~= Seq::<
                            SpecExpr,
                        >::empty());
                    }
                    Expression::function(next, tokens, pos + 2)
                }
            },
            Token::Value(Value::Integer(n)) => {
                let chars = crate::text::int_to_chars(*n);
                let next = Expression::Function {
                    term: Box::new(expr),
                    name: crate::text::chars_to_string(&chars),
                    args: Vec::new(),
                };
                proof {
                    assert(view_exprs(Seq::<Expression>::empty()) =~= Seq::<SpecExpr>::empty());
                }
                Expression::function(next, tokens, pos + 2)
            },
            _ => Err(Error::ExpressionSyntax(tokens[pos + 1].copy())),
        }
    }

    /// Parses a single term — a unary operator applied to a term, a
    /// parenthesised sub-expression, a list literal, a literal value or a
    /// variable — together with its trailing call chain.
    pub fn term(tokens: &Vec<TokenWithContext>, pos: usize) -> (r: Result<(Expression, usize), Error>)
        requires
            pos <= tokens@.len(),
        ensures
            match r {
                Ok((e, p)) => term_spec(view_tokens(tokens@), pos as int) == Ok::<
                    (SpecExpr, int),
                    SpecError,
                >((view_expr(e), p as int)) && pos < p <= tokens@.len() && (wf_tokens(tokens@)
                    ==> wf_expr(e)),
                Err(e) => term_spec(view_tokens(tokens@), pos as int) == Err::<
                    (SpecExpr, int),
                    SpecError,
                >(e.deep_view()),
            },
        decreases tokens@.len() - pos, 0int, 1int,
    {
        if pos >= tokens.len() {
            return Err(Error::Eof("term next"));
        }
        match &tokens[pos].token {
            Token::Not => match Expression::term(tokens, pos + 1) {
                Ok((t, p)) => Ok((Expression::Unary { op: Op::Not, operand: Box::new(t) }, p)),
                Err(err) => Err(err),
            },
            Token::Minus => match Expression::term(tokens, pos + 1) {
                Ok((t, p)) => Ok((Expression::Unary { op: Op::Sub, operand: Box::new(t) }, p)),
                Err(err) => Err(err),
            },
            Token::Plus => match Expression::term(tokens, pos + 1) {
                Ok((t, p)) => Ok((Expression::Unary { op: Op::Add, operand: Box::new(t) }, p)),
                Err(err) => Err(err),
            },
            Token::RoundBracketStart => {
                let close = match scan_round(tokens, pos + 1) {
                    Ok(j) => j,
                    Err(err) => {
                        return Err(err);
                    },
                };
                let inner = copy_range(tokens, pos + 1, close);
                proof {
                    assert(inner@.len() == view_tokens(inner@).len());
                    assert(inner@.len() == close - (pos + 1));
                }
                let (e, _unused) = match Expression::parse(&inner, 0) {
                    Ok(ok) => ok,
                    Err(err) => {
                        return Err(err);
                    },
                };
                Expression::function(e, tokens, close + 1)
            },
            Token::Variable(name) => Expression::function(
                Expression::variable(name.clone()),
                tokens,
                pos + 1,
            ),
            Token::Value(v) => Expression::function(
                Expression::constant(crate::language::value::clone_value(v)),
                tokens,
                pos + 1,
            ),
            Token::SquareBracketStart => {
                let (terms, p) = match list_items(tokens, pos + 1) {
                    Ok(ok) => ok,
                    Err(err) => {
                        return Err(err);
                    },
                };
                Expression::function(Expression::List { terms }, tokens, p)
            },
            _ => Err(Error::ExpressionSyntax(tokens[pos].copy())),
        }
    }

    /// Parses one expression from the token sequence, starting at the
    /// given position. Returns the tree and the position after the last
    /// token it consumed; tokens from there on are left for the caller.
    pub fn parse(tokens: &Vec<TokenWithContext>, pos: usize) -> (r: Result<
        (Expression, usize),
        Error,
    >)
        requires
            pos <= tokens@.len(),
        ensures
            match r {
                Ok((e, p)) => parse_spec(view_tokens(tokens@), pos as int) == Ok::<
                    (SpecExpr, int),
                    SpecError,
                >((view_expr(e), p as int)) && pos < p <= tokens@.len() && (wf_tokens(
                    tokens@,
                ) ==> wf_expr(e)),
                Err(e) => parse_spec(view_tokens(tokens@), pos as int) == Err::<
                    (SpecExpr, int),
                    SpecError,
                >(e.deep_view()),
            },
        decreases tokens@.len() - pos, 0int, 2int,
    {
        let (left, p1) = match Expression::term(tokens, pos) {
            Ok(ok) => ok,
            Err(err) => {
                return Err(err);
            },
        };
        if p1 >= tokens.len() {
            return Ok((left, p1));
        }
        let op = match Op::from_token(&tokens[p1].token) {
            Some(op) => op,
            None => {
                return Ok((left, p1));
            },
        };
        let (right, p2) = match Expression::term(tokens, p1 + 1) {
            Ok(ok) => ok,
            Err(err) => {
                return Err(err);
            },
        };
        if p2 >= tokens.len() {
            return Ok(
                (Expression::Binary { left: Box::new(left), op, right: Box::new(right) }, p2),
            );
        }
        let at_block_end = match &tokens[p2].token {
            Token::BlockEnd => true,
            _ => false,
        };
        if at_block_end {
            return Ok(
                (Expression::Binary { left: Box::new(left), op, right: Box::new(right) }, p2),
            );
        }
        let second_op = match Op::from_token(&tokens[p2].token) {
            Some(op2) => op2,
            None => {
                return Err(Error::ExpressionSyntax(tokens[p2].copy()));
            },
        };
        let (right2, p3) = match Expression::parse(tokens, p2 + 1) {
            Ok(ok) => ok,
            Err(err) => {
                return Err(err);
            },
        };
        proof {
            // Pin down the shape the specification gives this chain before
            // the grouped tree is assembled.
            let vt = view_tokens(tokens@);
            let grouped_tight = SpecExpr::Binary {
                left: Box::new(view_expr(left)),
                op,
                right: Box::new(
                    SpecExpr::Binary {
                        left: Box::new(view_expr(right)),
                        op: second_op,
                        right: Box::new(view_expr(right2)),
                    },
                ),
            };
            let grouped_left = SpecExpr::Binary {
                left: Box::new(
                    SpecExpr::Binary {
                        left: Box::new(view_expr(left)),
                        op,
                        right: Box::new(view_expr(right)),
                    },
                ),
                op: second_op,
                right: Box::new(view_expr(right2)),
            };
            if spec_precedence(second_op) < spec_precedence(op) {
                assert(parse_spec(vt, pos as int) == Ok::<(SpecExpr, int), SpecError>(
                    (grouped_tight, p3 as int),
                ));
            } else {
                assert(parse_spec(vt, pos as int) == Ok::<(SpecExpr, int), SpecError>(
                    (grouped_left, p3 as int),
                ));
            }
        }
        if second_op.precedence() < op.precedence() {
            let ghost rightview = view_expr(right);
            let ghost right2view = view_expr(right2);
            let inner = Expression::Binary {
                left: Box::new(right),
                op: second_op,
                right: Box::new(right2),
            };
            proof {
                assert(view_expr(inner) == SpecExpr::Binary {
                    left: Box::new(rightview),
                    op: second_op,
                    right: Box::new(right2view),
                });
            }
            let ghost leftview = view_expr(left);
            let ghost innerview = view_expr(inner);
            let ghost innerwf = wf_expr(inner);
            let result = Expression::Binary { left: Box::new(left), op, right: Box::new(inner) };
            proof {
                assert(view_expr(result) == SpecExpr::Binary {
                    left: Box::new(leftview),
                    op,
                    right: Box::new(innerview),
                });
                if wf_tokens(tokens@) {
                    assert(innerwf);
                    assert(wf_expr(result));
                }
            }
            Ok((result, p3))
        } else {
            let ghost rightview = view_expr(right);
            let ghost leftview = view_expr(left);
            let inner = Expression::Binary { left: Box::new(left), op, right: Box::new(right) };
            proof {
                assert(view_expr(inner) == SpecExpr::Binary {
                    left: Box::new(leftview),
                    op,
                    right: Box::new(rightview),
                });
            }
            let ghost right2view = view_expr(right2);
            let ghost innerview = view_expr(inner);
            let ghost innerwf = wf_expr(inner);
            let result = Expression::Binary {
                left: Box::new(inner),
                op: second_op,
                right: Box::new(right2),
            };
            proof {
                assert(view_expr(result) == SpecExpr::Binary {
                    left: Box::new(innerview),
                    op: second_op,
                    right: Box::new(right2view),
                });
                if wf_tokens(tokens@) {
                    assert(innerwf);
                    assert(wf_expr(result));
                }
            }
            Ok((result, p3))
        }
    }
}

/// What evaluating a raw text fragment returns: the text is tokenized,
/// the leading sentinel token is discarded, the rest is parsed, and the
/// tree is evaluated against the context; tokens after the parsed
/// expression are ignored.
pub open spec fn spec_evaluate_text(
    s: Seq<char>,
    ctx: Seq<(Seq<char>, SpecValue)>,
) -> Result<SpecValue, SpecError> {
    match crate::language::lexer::lex_spec(s, 0) {
        Err(e) => Err(e),
        Ok(toks) => match parse_spec(toks, 1) {
            Err(e) => Err(e),
            Ok((e, _)) => spec_eval(e, ctx),
        },
    }
}

/// Tokenizes a text fragment, discards the leading sentinel token,
/// parses one expression and evaluates it.
fn evaluate_text(input: &str, context: &Context) -> (r: Result<Value, Error>)
    requires
        wf_context(context),
    ensures
        view_call_result(r) == spec_evaluate_text(input@, context.deep_view()),
        r is Ok ==> wf_value(r->Ok_0),
{
    let tokens = match crate::language::lexer::tokenize(input) {
        Ok(t) => t,
        Err(e) => {
            return Err(e);
        },
    };
    if tokens.len() < 1 {
        proof {
            assert(view_tokens(tokens@).len() == 0);
            assert(term_spec(view_tokens(tokens@), 1) == Err::<(SpecExpr, int), SpecError>(
                SpecError::Eof("term next"@),
            ));
            assert(parse_spec(view_tokens(tokens@), 1) == Err::<(SpecExpr, int), SpecError>(
                SpecError::Eof("term next"@),
            ));
        }
        return Err(Error::Eof("term next"));
    }
    let (expr, _rest) = match Expression::parse(&tokens, 1) {
        Ok(ok) => ok,
        Err(e) => {
            return Err(e);
        },
    };
    expr.evaluate(context)
}

/// Anything that holds the text of one expression and can evaluate it
/// against a context.
pub trait Evaluate {
    /// The characters of the expression text.
    spec fn text(&self) -> Seq<char>;

    /// Evaluates the expression text with the given context.
    fn evaluate(&self, context: &Context) -> (r: Result<Value, Error>)
        requires
            wf_context(context),
        ensures
            view_call_result(r) == spec_evaluate_text(self.text(), context.deep_view()),
            r is Ok ==> wf_value(r->Ok_0),
    ;

    /// Evaluates the expression text with an empty context: for
    /// expressions that use no variables.
    fn evaluate_default(&self) -> (r: Result<Value, Error>)
        ensures
            view_call_result(r) == spec_evaluate_text(
                self.text(),
                Seq::<(Seq<char>, SpecValue)>::empty(),
            ),
            r is Ok ==> wf_value(r->Ok_0),
    ;
}

impl Evaluate for &str {
    open spec fn text(&self) -> Seq<char> {
        self@
    }

    fn evaluate(&self, context: &Context) -> (r: Result<Value, Error>) {
        evaluate_text(self, context)
    }

    fn evaluate_default(&self) -> (r: Result<Value, Error>) {
        let context = Context::default();
        evaluate_text(self, &context)
    }
}

impl Evaluate for String {
    open spec fn text(&self) -> Seq<char> {
        self@
    }

    fn evaluate(&self, context: &Context) -> (r: Result<Value, Error>) {
        evaluate_text(self.as_str(), context)
    }

    fn evaluate_default(&self) -> (r: Result<Value, Error>) {
        let context = Context::default();
        evaluate_text(self.as_str(), &context)
    }
}

} // verus!
