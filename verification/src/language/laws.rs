//! Laws of the expression language, stated and proved against the
//! specification functions that the executable code is verified to
//! implement.

use crate::language::context::spec_lookup;
use crate::language::error::SpecError;
use crate::language::expression::{
    list_spec, parse_spec, scan_round_spec, spec_eval, spec_evaluate_text, SpecExpr,
};
use crate::language::op::{spec_op_from_token, spec_precedence};
use crate::language::lexer::{SpecToken, SpecTokenCtx};
use crate::language::op::{spec_binary, Op};
use crate::language::term::SpecTerm;
use crate::language::value::{SpecValue};
use vstd::prelude::*;

verus! {

/// Multiplying a string by an integer repeats the string whichever side
/// each operand stands on: the two operand orders give the same result.
pub proof fn lemma_string_repeat_commutes(s: Seq<char>, n: int)
    ensures
        spec_binary(Op::Mul, SpecValue::Str(s), SpecValue::Integer(n)) == spec_binary(
            Op::Mul,
            SpecValue::Integer(n),
            SpecValue::Str(s),
        ),
{
}

/// Referencing a variable whose name the context does not hold fails
/// with an undefined-variable error naming it — never a silent null.
pub proof fn lemma_undefined_variable(name: Seq<char>, ctx: Seq<(Seq<char>, SpecValue)>)
    requires
        spec_lookup(ctx, name) is None,
    ensures
        spec_eval(SpecExpr::Term { term: SpecTerm::Variable(name) }, ctx) == Err::<
            SpecValue,
            SpecError,
        >(SpecError::UndefinedVariable(name)),
{
}

/// Both operands of a boolean connective are evaluated: a failing right
/// operand fails the whole expression even when the left operand alone
/// would decide it.
pub proof fn lemma_no_short_circuit(
    left: SpecExpr,
    right: SpecExpr,
    ctx: Seq<(Seq<char>, SpecValue)>,
    e: SpecError,
)
    requires
        spec_eval(left, ctx) == Ok::<SpecValue, SpecError>(SpecValue::Boolean(false)),
        spec_eval(right, ctx) == Err::<SpecValue, SpecError>(e),
    ensures
        spec_eval(
            SpecExpr::Binary { left: Box::new(left), op: Op::And, right: Box::new(right) },
            ctx,
        ) == Err::<SpecValue, SpecError>(e),
{
}

/// A round bracket group that never closes runs out of tokens: the scan
/// for the matching close reports an end-of-input error whenever no
/// closing bracket and no block-end sentinel follows.
pub proof fn lemma_unterminated_round_bracket(
    toks: Seq<SpecTokenCtx>,
    pos: int,
    count: int,
)
    requires
        0 <= pos <= toks.len(),
        forall|j: int|
            pos <= j < toks.len() ==> !((#[trigger] toks[j].token) is RoundBracketEnd)
                && !(toks[j].token is BlockEnd),
    ensures
        scan_round_spec(toks, pos, count) == Err::<int, SpecError>(
            SpecError::Eof("round bracket start"@),
        ),
    decreases toks.len() - pos,
{
    if pos < toks.len() {
        lemma_unterminated_round_bracket(toks, pos + 1, count + 1);
        lemma_unterminated_round_bracket(toks, pos + 1, count - 1);
        lemma_unterminated_round_bracket(toks, pos + 1, count);
    }
}

/// A round bracket group still open when the block-end sentinel arrives
/// is a syntax error carrying that sentinel: the scan for the matching
/// close reports it whenever no closing bracket stands before it.
pub proof fn lemma_round_bracket_hits_block_end(
    toks: Seq<SpecTokenCtx>,
    pos: int,
    count: int,
    j: int,
)
    requires
        0 <= pos <= j < toks.len(),
        toks[j].token is BlockEnd,
        forall|k: int|
            pos <= k < j ==> !((#[trigger] toks[k].token) is RoundBracketEnd) && !(
            toks[k].token is BlockEnd),
    ensures
        scan_round_spec(toks, pos, count) == Err::<int, SpecError>(
            SpecError::ExpressionSyntax(toks[j]),
        ),
    decreases j - pos,
{
    if pos < j {
        lemma_round_bracket_hits_block_end(toks, pos + 1, count + 1, j);
        lemma_round_bracket_hits_block_end(toks, pos + 1, count, j);
    }
}

/// A square bracket list that never closes fails: when no closing square
/// bracket follows, reading list elements ends in an error — an
/// end-of-input error when the tokens run out, or a syntax error at the
/// first token a list may not hold.
pub proof fn lemma_unterminated_square_bracket(toks: Seq<SpecTokenCtx>, pos: int)
    requires
        0 <= pos <= toks.len(),
        forall|j: int|
            pos <= j < toks.len() ==> !((#[trigger] toks[j].token) is SquareBracketEnd),
    ensures
        list_spec(toks, pos) is Err,
    decreases toks.len() - pos,
{
    if pos < toks.len() {
        lemma_unterminated_square_bracket(toks, pos + 1);
    }
}

/// Parsing is deterministic: the parse result is a function of the token
/// sequence alone, so parsing equal token sequences twice yields equal
/// trees. The executable parser is verified to return exactly this
/// function of its input.
pub proof fn lemma_parse_deterministic(t1: Seq<SpecTokenCtx>, t2: Seq<SpecTokenCtx>)
    requires
        t1 == t2,
    ensures
        parse_spec(t1, 0) == parse_spec(t2, 0),
{
}

/// Evaluation is deterministic: the value of a tree is a function of the
/// tree and the context contents alone, so evaluating the same tree
/// against equal contexts twice yields equal values. The executable
/// evaluator is verified to return exactly this function of its inputs.
pub proof fn lemma_eval_deterministic(
    e1: SpecExpr,
    e2: SpecExpr,
    c1: Seq<(Seq<char>, SpecValue)>,
    c2: Seq<(Seq<char>, SpecValue)>,
)
    requires
        e1 == e2,
        c1 == c2,
    ensures
        spec_eval(e1, c1) == spec_eval(e2, c2),
{
}

/// End-to-end determinism: evaluating the same text against equal
/// contexts twice yields equal results.
pub proof fn lemma_text_eval_deterministic(
    s1: Seq<char>,
    s2: Seq<char>,
    c1: Seq<(Seq<char>, SpecValue)>,
    c2: Seq<(Seq<char>, SpecValue)>,
)
    requires
        s1 == s2,
        c1 == c2,
    ensures
        spec_evaluate_text(s1, c1) == spec_evaluate_text(s2, c2),
{
}

/// The pairwise precedence rule of the grammar: in `a OP1 b OP2 c`, a
/// strictly tighter second operator binds to the right, and otherwise the
/// chain groups to the left — so equal-precedence chains evaluate left to
/// right and a tighter tail binds first.
pub proof fn lemma_pairwise_precedence(
    a: SpecValue,
    b: SpecValue,
    c: SpecValue,
    t1: SpecToken,
    t2: SpecToken,
    op1: Op,
    op2: Op,
)
    requires
        spec_op_from_token(t1) == Some(op1),
        spec_op_from_token(t2) == Some(op2),
    ensures
        ({
            let toks = seq![
                SpecTokenCtx { token: SpecToken::Value(a), offset: 0 },
                SpecTokenCtx { token: t1, offset: 1 },
                SpecTokenCtx { token: SpecToken::Value(b), offset: 2 },
                SpecTokenCtx { token: t2, offset: 3 },
                SpecTokenCtx { token: SpecToken::Value(c), offset: 4 },
            ];
            let ea = SpecExpr::Term { term: SpecTerm::Constant(a) };
            let eb = SpecExpr::Term { term: SpecTerm::Constant(b) };
            let ec = SpecExpr::Term { term: SpecTerm::Constant(c) };
            parse_spec(toks, 0) == Ok::<(SpecExpr, int), SpecError>(
                (
                    if spec_precedence(op2) < spec_precedence(op1) {
                        SpecExpr::Binary {
                            left: Box::new(ea),
                            op: op1,
                            right: Box::new(
                                SpecExpr::Binary {
                                    left: Box::new(eb),
                                    op: op2,
                                    right: Box::new(ec),
                                },
                            ),
                        }
                    } else {
                        SpecExpr::Binary {
                            left: Box::new(
                                SpecExpr::Binary {
                                    left: Box::new(ea),
                                    op: op1,
                                    right: Box::new(eb),
                                },
                            ),
                            op: op2,
                            right: Box::new(ec),
                        }
                    },
                    5,
                ),
            )
        }),
{
    let toks = seq![
        SpecTokenCtx { token: SpecToken::Value(a), offset: 0 },
        SpecTokenCtx { token: t1, offset: 1 },
        SpecTokenCtx { token: SpecToken::Value(b), offset: 2 },
        SpecTokenCtx { token: t2, offset: 3 },
        SpecTokenCtx { token: SpecToken::Value(c), offset: 4 },
    ];
    let ea = SpecExpr::Term { term: SpecTerm::Constant(a) };
    let eb = SpecExpr::Term { term: SpecTerm::Constant(b) };
    let ec = SpecExpr::Term { term: SpecTerm::Constant(c) };
    assert(toks.len() == 5);
    assert(toks[0].token == SpecToken::Value(a));
    assert(toks[1].token == t1);
    assert(toks[2].token == SpecToken::Value(b));
    assert(toks[3].token == t2);
    assert(toks[4].token == SpecToken::Value(c));
    assert(!(t1 is Dot));
    assert(!(t2 is Dot));
    assert(crate::language::expression::function_spec(ea, toks, 1) == Ok::<
        (SpecExpr, int),
        SpecError,
    >((ea, 1)));
    assert(crate::language::expression::term_spec(toks, 0) == Ok::<
        (SpecExpr, int),
        SpecError,
    >((ea, 1)));
    assert(crate::language::expression::function_spec(eb, toks, 3) == Ok::<
        (SpecExpr, int),
        SpecError,
    >((eb, 3)));
    assert(crate::language::expression::term_spec(toks, 2) == Ok::<
        (SpecExpr, int),
        SpecError,
    >((eb, 3)));
    assert(crate::language::expression::function_spec(ec, toks, 5) == Ok::<
        (SpecExpr, int),
        SpecError,
    >((ec, 5)));
    assert(crate::language::expression::term_spec(toks, 4) == Ok::<
        (SpecExpr, int),
        SpecError,
    >((ec, 5)));
    assert(parse_spec(toks, 4) == Ok::<(SpecExpr, int), SpecError>((ec, 5)));
}

/// The grouping rule for any chain of three terms: whenever the token
/// sequence reads as a term, an operator, a term, an operator and a
/// final term that ends the sequence, the parse groups the chain to the
/// right exactly when the second operator binds strictly tighter, and to
/// the left otherwise — whatever the three terms are.
pub proof fn lemma_chain_grouping(
    toks: Seq<SpecTokenCtx>,
    e1: SpecExpr,
    e2: SpecExpr,
    e3: SpecExpr,
    p1: int,
    p2: int,
    p3: int,
    op1: Op,
    op2: Op,
)
    requires
        crate::language::expression::term_spec(toks, 0) == Ok::<(SpecExpr, int), SpecError>(
            (e1, p1),
        ),
        0 < p1 < toks.len(),
        spec_op_from_token(toks[p1].token) == Some(op1),
        crate::language::expression::term_spec(toks, p1 + 1) == Ok::<
            (SpecExpr, int),
            SpecError,
        >((e2, p2)),
        p1 + 1 < p2 < toks.len(),
        spec_op_from_token(toks[p2].token) == Some(op2),
        crate::language::expression::term_spec(toks, p2 + 1) == Ok::<
            (SpecExpr, int),
            SpecError,
        >((e3, p3)),
        p2 + 1 < p3,
        p3 == toks.len(),
    ensures
        parse_spec(toks, 0) == Ok::<(SpecExpr, int), SpecError>(
            (
                if spec_precedence(op2) < spec_precedence(op1) {
                    SpecExpr::Binary {
                        left: Box::new(e1),
                        op: op1,
                        right: Box::new(
                            SpecExpr::Binary {
                                left: Box::new(e2),
                                op: op2,
                                right: Box::new(e3),
                            },
                        ),
                    }
                } else {
                    SpecExpr::Binary {
                        left: Box::new(
                            SpecExpr::Binary { left: Box::new(e1), op: op1, right: Box::new(e2) },
                        ),
                        op: op2,
                        right: Box::new(e3),
                    }
                },
                p3,
            ),
        ),
{
    assert(crate::language::expression::step_pos(0, toks.len() as int, p1) == p1);
    assert(crate::language::expression::step_pos(p1 + 1, toks.len() as int, p2) == p2);
    assert(crate::language::expression::step_pos(p2 + 1, toks.len() as int, p3) == p3);
    assert(parse_spec(toks, p2 + 1) == Ok::<(SpecExpr, int), SpecError>((e3, p3)));
}

/// Operands are evaluated left to right: when the left operand of a
/// binary operation fails, its error is the result, whatever the right
/// operand would do.
pub proof fn lemma_left_error_first(
    left: SpecExpr,
    right: SpecExpr,
    op: Op,
    ctx: Seq<(Seq<char>, SpecValue)>,
    e: SpecError,
)
    requires
        spec_eval(left, ctx) == Err::<SpecValue, SpecError>(e),
    ensures
        spec_eval(
            SpecExpr::Binary { left: Box::new(left), op, right: Box::new(right) },
            ctx,
        ) == Err::<SpecValue, SpecError>(e),
{
}

} // verus!
