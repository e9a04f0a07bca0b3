//! The parser: token sequence to a single tree, by operator-precedence
//! (shunting-yard) reduction.
//!
//! Two stacks are kept: operators and grouping markers on one, finished
//! subtrees on the other. An arriving operator first reduces every stacked
//! operator of precedence at least its own (stopping at a grouping marker), so
//! operators of equal precedence are applied left to right. A closing
//! grouping reduces back to its opening marker. When the tokens are spent,
//! the remaining operators are reduced and exactly one tree must be left.

use vstd::prelude::*;
use crate::ast::{BinaryOperator, Value, ValueView};
use crate::errors::ParseError;
use crate::token::{tokens_view, Operator, Token, TokenView};

verus! {

/// What the operator stack holds: an operator, or the marker of an open
/// grouping.
#[derive(Clone, Copy, Debug, PartialEq, Eq, Structural)]
pub enum StackEntry {
    Operator(Operator),
    LeftGrouping,
}

/// The model of the value stack.
pub open spec fn values_view(vs: Seq<Value>) -> Seq<ValueView> {
    vs.map_values(|v: Value| v@)
}

/// One reduction: the operator on top of the operator stack is applied to the
/// topmost value (unary) or the topmost two, right operand above left
/// (binary), and the result is pushed back.
pub open spec fn reduce_op(op: Operator, vals: Seq<ValueView>) -> Result<
    Seq<ValueView>,
    ParseError,
> {
    match op {
        Operator::Binary(b) => if vals.len() < 2 {
            Err(ParseError::TooFewOperands)
        } else {
            Ok(
                vals.drop_last().drop_last().push(
                    ValueView::BinaryOperator {
                        operator: b,
                        operands: (
                            Box::new(vals[vals.len() - 2]),
                            Box::new(vals[vals.len() - 1]),
                        ),
                    },
                ),
            )
        },
        Operator::Unary(u) => if vals.len() < 1 {
            Err(ParseError::TooFewOperands)
        } else {
            Ok(
                vals.drop_last().push(
                    ValueView::UnaryOperator { operator: u, operand: Box::new(vals.last()) },
                ),
            )
        },
    }
}

/// Reductions demanded by an arriving operator of precedence `p`: every
/// stacked operator of precedence at least `p` is reduced, stopping at an
/// open grouping or at the bottom of the stack.
pub open spec fn reduce_while_ge(ops: Seq<StackEntry>, vals: Seq<ValueView>, p: u8) -> Result<
    (Seq<StackEntry>, Seq<ValueView>),
    ParseError,
>
    decreases ops.len(),
{
    if ops.len() == 0 {
        Ok((ops, vals))
    } else {
        match ops.last() {
            StackEntry::LeftGrouping => Ok((ops, vals)),
            StackEntry::Operator(op) => if op.spec_precedence() >= p {
                match reduce_op(op, vals) {
                    Err(e) => Err(e),
                    Ok(vals2) => reduce_while_ge(ops.drop_last(), vals2, p),
                }
            } else {
                Ok((ops, vals))
            },
        }
    }
}

/// Reductions demanded by a closing grouping: every stacked operator down to
/// the matching open marker is reduced and the marker is discarded; an
/// exhausted stack means the grouping was never opened.
pub open spec fn close_group(ops: Seq<StackEntry>, vals: Seq<ValueView>) -> Result<
    (Seq<StackEntry>, Seq<ValueView>),
    ParseError,
>
    decreases ops.len(),
{
    if ops.len() == 0 {
        Err(ParseError::UnbalancedParentheses)
    } else {
        match ops.last() {
            StackEntry::LeftGrouping => Ok((ops.drop_last(), vals)),
            StackEntry::Operator(op) => match reduce_op(op, vals) {
                Err(e) => Err(e),
                Ok(vals2) => close_group(ops.drop_last(), vals2),
            },
        }
    }
}

/// The effect of one token on the two stacks.
pub open spec fn parse_step(ops: Seq<StackEntry>, vals: Seq<ValueView>, t: TokenView) -> Result<
    (Seq<StackEntry>, Seq<ValueView>),
    ParseError,
> {
    match t {
        TokenView::Constant(lit) => Ok((ops, vals.push(ValueView::Constant(lit)))),
        TokenView::Variable(i) => Ok((ops, vals.push(ValueView::Variable(i)))),
        TokenView::Operator(op) => match reduce_while_ge(ops, vals, op.spec_precedence()) {
            Err(e) => Err(e),
            Ok((ops2, vals2)) => Ok((ops2.push(StackEntry::Operator(op)), vals2)),
        },
        TokenView::LeftGrouping => Ok((ops.push(StackEntry::LeftGrouping), vals)),
        TokenView::RightGrouping => close_group(ops, vals),
    }
}

/// The two stacks after consuming the tokens from position `i` on.
pub open spec fn parse_tokens(
    ts: Seq<TokenView>,
    i: int,
    ops: Seq<StackEntry>,
    vals: Seq<ValueView>,
) -> Result<(Seq<StackEntry>, Seq<ValueView>), ParseError>
    decreases ts.len() - i,
{
    if i < 0 || i >= ts.len() {
        Ok((ops, vals))
    } else {
        match parse_step(ops, vals, ts[i]) {
            Err(e) => Err(e),
            Ok((o, v)) => parse_tokens(ts, i + 1, o, v),
        }
    }
}

/// End of input: the remaining operators are reduced; a still-open grouping
/// means the input closed too few groupings.
pub open spec fn drain_operators(ops: Seq<StackEntry>, vals: Seq<ValueView>) -> Result<
    Seq<ValueView>,
    ParseError,
>
    decreases ops.len(),
{
    if ops.len() == 0 {
        Ok(vals)
    } else {
        match ops.last() {
            StackEntry::LeftGrouping => Err(ParseError::UnbalancedParentheses),
            StackEntry::Operator(op) => match reduce_op(op, vals) {
                Err(e) => Err(e),
                Ok(vals2) => drain_operators(ops.drop_last(), vals2),
            },
        }
    }
}

/// On success exactly one value remains: zero values mean the input held no
/// expression at all, several mean it held too many.
pub open spec fn finish(vals: Seq<ValueView>) -> Result<ValueView, ParseError> {
    if vals.len() == 0 {
        Err(ParseError::EmptyExpression)
    } else if vals.len() == 1 {
        Ok(vals[0])
    } else {
        Err(ParseError::TooManyOperands)
    }
}

/// The result of parsing, starting from position `i` with the given stacks.
pub open spec fn parse_from(
    ts: Seq<TokenView>,
    i: int,
    ops: Seq<StackEntry>,
    vals: Seq<ValueView>,
) -> Result<ValueView, ParseError> {
    match parse_tokens(ts, i, ops, vals) {
        Err(e) => Err(e),
        Ok((o, v)) => match drain_operators(o, v) {
            Err(e) => Err(e),
            Ok(vals2) => finish(vals2),
        },
    }
}

/// What `parse` returns on a given token sequence.
pub open spec fn spec_parse(ts: Seq<TokenView>) -> Result<ValueView, ParseError> {
    parse_from(ts, 0, Seq::empty(), Seq::empty())
}

/// Precedence ordering: in `c1 a c2 b c3`, an operator `a` whose precedence
/// is at least that of the operator after it binds its operands first, so the
/// result is `(c1 a c2) b c3`. With equal precedences this is exactly
/// left-associativity.
pub proof fn lemma_precedence_ordering(
    a: BinaryOperator,
    b: BinaryOperator,
    c1: Seq<char>,
    c2: Seq<char>,
    c3: Seq<char>,
)
    requires
        a.spec_precedence() >= b.spec_precedence(),
    ensures
        spec_parse(
            seq![
                TokenView::Constant(c1),
                TokenView::Operator(Operator::Binary(a)),
                TokenView::Constant(c2),
                TokenView::Operator(Operator::Binary(b)),
                TokenView::Constant(c3),
            ],
        ) == Ok::<ValueView, ParseError>(
            ValueView::BinaryOperator {
                operator: b,
                operands: (
                    Box::new(
                        ValueView::BinaryOperator {
                            operator: a,
                            operands: (
                                Box::new(ValueView::Constant(c1)),
                                Box::new(ValueView::Constant(c2)),
                            ),
                        },
                    ),
                    Box::new(ValueView::Constant(c3)),
                ),
            },
        ),
{
    let t1 = TokenView::Constant(c1);
    let ta = TokenView::Operator(Operator::Binary(a));
    let t2 = TokenView::Constant(c2);
    let tb = TokenView::Operator(Operator::Binary(b));
    let t3 = TokenView::Constant(c3);
    let ts = seq![t1, ta, t2, tb, t3];
    let e1 = ValueView::Constant(c1);
    let e2 = ValueView::Constant(c2);
    let e3 = ValueView::Constant(c3);
    let inner = ValueView::BinaryOperator {
        operator: a,
        operands: (Box::new(e1), Box::new(e2)),
    };
    let outer = ValueView::BinaryOperator {
        operator: b,
        operands: (Box::new(inner), Box::new(e3)),
    };
    let ops0 = Seq::<StackEntry>::empty();
    let vals0 = Seq::<ValueView>::empty();
    let entry_a = StackEntry::Operator(Operator::Binary(a));
    let entry_b = StackEntry::Operator(Operator::Binary(b));
    let ops_a = seq![entry_a];
    let ops_b = seq![entry_b];
    let vals1 = seq![e1];
    let vals12 = seq![e1, e2];
    let vals_in = seq![inner];
    let vals_in3 = seq![inner, e3];
    let vals_out = seq![outer];

    assert(ts.len() == 5);
    assert(ts[0] == t1 && ts[1] == ta && ts[2] == t2 && ts[3] == tb && ts[4] == t3);

    // Token 1: the first constant is pushed.
    assert(vals0.push(e1) =~= vals1);
    // Token 2: nothing to reduce, `a` is stacked.
    assert(reduce_while_ge(ops0, vals1, a.spec_precedence()) == Ok::<
        (Seq<StackEntry>, Seq<ValueView>),
        ParseError,
    >((ops0, vals1)));
    assert(ops0.push(entry_a) =~= ops_a);
    // Token 3: the second constant is pushed.
    assert(vals1.push(e2) =~= vals12);
    // Token 4: `a` has precedence at least that of `b`, so it is reduced
    // before `b` is stacked.
    assert(vals12.len() == 2 && vals12[0] == e1 && vals12[1] == e2);
    assert(vals12.drop_last().drop_last().push(inner) =~= vals_in);
    assert(reduce_op(Operator::Binary(a), vals12) == Ok::<Seq<ValueView>, ParseError>(vals_in));
    assert(ops_a.last() == entry_a);
    assert(ops_a.drop_last() =~= ops0);
    assert(reduce_while_ge(ops0, vals_in, b.spec_precedence()) == Ok::<
        (Seq<StackEntry>, Seq<ValueView>),
        ParseError,
    >((ops0, vals_in)));
    assert(reduce_while_ge(ops_a, vals12, b.spec_precedence()) == Ok::<
        (Seq<StackEntry>, Seq<ValueView>),
        ParseError,
    >((ops0, vals_in)));
    assert(ops0.push(entry_b) =~= ops_b);
    // Token 5: the third constant is pushed.
    assert(vals_in.push(e3) =~= vals_in3);
    // The whole scan, back to front.
    assert(parse_tokens(ts, 5, ops_b, vals_in3) == Ok::<
        (Seq<StackEntry>, Seq<ValueView>),
        ParseError,
    >((ops_b, vals_in3)));
    assert(parse_tokens(ts, 4, ops_b, vals_in) == Ok::<
        (Seq<StackEntry>, Seq<ValueView>),
        ParseError,
    >((ops_b, vals_in3)));
    assert(parse_tokens(ts, 3, ops_a, vals12) == Ok::<
        (Seq<StackEntry>, Seq<ValueView>),
        ParseError,
    >((ops_b, vals_in3)));
    assert(parse_tokens(ts, 2, ops_a, vals1) == Ok::<
        (Seq<StackEntry>, Seq<ValueView>),
        ParseError,
    >((ops_b, vals_in3)));
    assert(parse_tokens(ts, 1, ops0, vals1) == Ok::<
        (Seq<StackEntry>, Seq<ValueView>),
        ParseError,
    >((ops_b, vals_in3)));
    assert(parse_tokens(ts, 0, ops0, vals0) == Ok::<
        (Seq<StackEntry>, Seq<ValueView>),
        ParseError,
    >((ops_b, vals_in3)));
    // End of input: `b` is reduced last, on top of the tree `a` built.
    assert(vals_in3.len() == 2 && vals_in3[0] == inner && vals_in3[1] == e3);
    assert(vals_in3.drop_last().drop_last().push(outer) =~= vals_out);
    assert(reduce_op(Operator::Binary(b), vals_in3) == Ok::<Seq<ValueView>, ParseError>(vals_out));
    assert(ops_b.last() == entry_b);
    assert(ops_b.drop_last() =~= ops0);
    assert(drain_operators(ops0, vals_out) == Ok::<Seq<ValueView>, ParseError>(vals_out));
    assert(drain_operators(ops_b, vals_in3) == Ok::<Seq<ValueView>, ParseError>(vals_out));
    assert(finish(vals_out) == Ok::<ValueView, ParseError>(outer));
}

/// The counterpart: in `c1 a c2 b c3`, an operator `a` of strictly lower
/// precedence than the operator after it waits, so the result is
/// `c1 a (c2 b c3)`.
pub proof fn lemma_lower_precedence_defers(
    a: BinaryOperator,
    b: BinaryOperator,
    c1: Seq<char>,
    c2: Seq<char>,
    c3: Seq<char>,
)
    requires
        a.spec_precedence() < b.spec_precedence(),
    ensures
        spec_parse(
            seq![
                TokenView::Constant(c1),
                TokenView::Operator(Operator::Binary(a)),
                TokenView::Constant(c2),
                TokenView::Operator(Operator::Binary(b)),
                TokenView::Constant(c3),
            ],
        ) == Ok::<ValueView, ParseError>(
            ValueView::BinaryOperator {
                operator: a,
                operands: (
                    Box::new(ValueView::Constant(c1)),
                    Box::new(
                        ValueView::BinaryOperator {
                            operator: b,
                            operands: (
                                Box::new(ValueView::Constant(c2)),
                                Box::new(ValueView::Constant(c3)),
                            ),
                        },
                    ),
                ),
            },
        ),
{
    let t1 = TokenView::Constant(c1);
    let ta = TokenView::Operator(Operator::Binary(a));
    let t2 = TokenView::Constant(c2);
    let tb = TokenView::Operator(Operator::Binary(b));
    let t3 = TokenView::Constant(c3);
    let ts = seq![t1, ta, t2, tb, t3];
    let e1 = ValueView::Constant(c1);
    let e2 = ValueView::Constant(c2);
    let e3 = ValueView::Constant(c3);
    let inner = ValueView::BinaryOperator {
        operator: b,
        operands: (Box::new(e2), Box::new(e3)),
    };
    let outer = ValueView::BinaryOperator {
        operator: a,
        operands: (Box::new(e1), Box::new(inner)),
    };
    let ops0 = Seq::<StackEntry>::empty();
    let vals0 = Seq::<ValueView>::empty();
    let entry_a = StackEntry::Operator(Operator::Binary(a));
    let entry_b = StackEntry::Operator(Operator::Binary(b));
    let ops_a = seq![entry_a];
    let ops_ab = seq![entry_a, entry_b];
    let vals1 = seq![e1];
    let vals12 = seq![e1, e2];
    let vals123 = seq![e1, e2, e3];
    let vals_1in = seq![e1, inner];
    let vals_out = seq![outer];

    assert(ts.len() == 5);
    assert(ts[0] == t1 && ts[1] == ta && ts[2] == t2 && ts[3] == tb && ts[4] == t3);

    // The scan: `a` is stacked, then `b` arrives and `a` waits, so `b` is
    // stacked above it and all three constants pile up.
    assert(vals0.push(e1) =~= vals1);
    assert(reduce_while_ge(ops0, vals1, a.spec_precedence()) == Ok::<
        (Seq<StackEntry>, Seq<ValueView>),
        ParseError,
    >((ops0, vals1)));
    assert(ops0.push(entry_a) =~= ops_a);
    assert(vals1.push(e2) =~= vals12);
    assert(ops_a.last() == entry_a);
    assert(reduce_while_ge(ops_a, vals12, b.spec_precedence()) == Ok::<
        (Seq<StackEntry>, Seq<ValueView>),
        ParseError,
    >((ops_a, vals12)));
    assert(ops_a.push(entry_b) =~= ops_ab);
    assert(vals12.push(e3) =~= vals123);
    assert(parse_tokens(ts, 5, ops_ab, vals123) == Ok::<
        (Seq<StackEntry>, Seq<ValueView>),
        ParseError,
    >((ops_ab, vals123)));
    assert(parse_tokens(ts, 4, ops_ab, vals12) == Ok::<
        (Seq<StackEntry>, Seq<ValueView>),
        ParseError,
    >((ops_ab, vals123)));
    assert(parse_tokens(ts, 3, ops_a, vals12) == Ok::<
        (Seq<StackEntry>, Seq<ValueView>),
        ParseError,
    >((ops_ab, vals123)));
    assert(parse_tokens(ts, 2, ops_a, vals1) == Ok::<
        (Seq<StackEntry>, Seq<ValueView>),
        ParseError,
    >((ops_ab, vals123)));
    assert(parse_tokens(ts, 1, ops0, vals1) == Ok::<
        (Seq<StackEntry>, Seq<ValueView>),
        ParseError,
    >((ops_ab, vals123)));
    assert(parse_tokens(ts, 0, ops0, vals0) == Ok::<
        (Seq<StackEntry>, Seq<ValueView>),
        ParseError,
    >((ops_ab, vals123)));
    // End of input: `b` reduces first, `a` last.
    assert(vals123.len() == 3 && vals123[1] == e2 && vals123[2] == e3);
    assert(vals123.drop_last().drop_last().push(inner) =~= vals_1in);
    assert(reduce_op(Operator::Binary(b), vals123) == Ok::<Seq<ValueView>, ParseError>(vals_1in));
    assert(ops_ab.last() == entry_b);
    assert(ops_ab.drop_last() =~= ops_a);
    assert(vals_1in.len() == 2 && vals_1in[0] == e1 && vals_1in[1] == inner);
    assert(vals_1in.drop_last().drop_last().push(outer) =~= vals_out);
    assert(reduce_op(Operator::Binary(a), vals_1in) == Ok::<Seq<ValueView>, ParseError>(vals_out));
    assert(ops_a.drop_last() =~= ops0);
    assert(drain_operators(ops0, vals_out) == Ok::<Seq<ValueView>, ParseError>(vals_out));
    assert(drain_operators(ops_a, vals_1in) == Ok::<Seq<ValueView>, ParseError>(vals_out));
    assert(drain_operators(ops_ab, vals123) == Ok::<Seq<ValueView>, ParseError>(vals_out));
    assert(finish(vals_out) == Ok::<ValueView, ParseError>(outer));
}

fn reduce_top(op: Operator, vals: &mut Vec<Value>) -> (r: Result<(), ParseError>)
    ensures
        match r {
            Ok(()) => reduce_op(op, values_view(old(vals)@)) == Ok::<Seq<ValueView>, ParseError>(
                values_view(final(vals)@),
            ),
            Err(e) => reduce_op(op, values_view(old(vals)@)) == Err::<Seq<ValueView>, ParseError>(
                e,
            ),
        },
{
    match op {
        Operator::Binary(b) => {
            let rhs = match vals.pop() {
                Some(v) => v,
                None => {
                    return Err(ParseError::TooFewOperands);
                },
            };
            let lhs = match vals.pop() {
                Some(v) => v,
                None => {
                    return Err(ParseError::TooFewOperands);
                },
            };
            let ghost before = values_view(old(vals)@);
            vals.push(Value::BinaryOperator { operator: b, operands: (Box::new(lhs), Box::new(rhs)) });
            proof {
                assert(old(vals)@.subrange(0, old(vals)@.len() - 1).subrange(
                    0,
                    old(vals)@.len() - 2,
                ) =~= old(vals)@.subrange(0, old(vals)@.len() - 2));
                assert(values_view(vals@) =~= before.drop_last().drop_last().push(
                    ValueView::BinaryOperator {
                        operator: b,
                        operands: (
                            Box::new(before[before.len() - 2]),
                            Box::new(before[before.len() - 1]),
                        ),
                    },
                ));
            }
            Ok(())
        },
        Operator::Unary(u) => {
            let operand = match vals.pop() {
                Some(v) => v,
                None => {
                    return Err(ParseError::TooFewOperands);
                },
            };
            let ghost before = values_view(old(vals)@);
            vals.push(Value::UnaryOperator { operator: u, operand: Box::new(operand) });
            proof {
                assert(values_view(vals@) =~= before.drop_last().push(
                    ValueView::UnaryOperator { operator: u, operand: Box::new(before.last()) },
                ));
            }
            Ok(())
        },
    }
}

fn reduce_while_precedence(ops: &mut Vec<StackEntry>, vals: &mut Vec<Value>, p: u8) -> (r: Result<
    (),
    ParseError,
>)
    ensures
        match r {
            Ok(()) => reduce_while_ge(old(ops)@, values_view(old(vals)@), p) == Ok::<
                (Seq<StackEntry>, Seq<ValueView>),
                ParseError,
            >((final(ops)@, values_view(final(vals)@))),
            Err(e) => reduce_while_ge(old(ops)@, values_view(old(vals)@), p) == Err::<
                (Seq<StackEntry>, Seq<ValueView>),
                ParseError,
            >(e),
        },
{
    let ghost ops0 = old(ops)@;
    let ghost vals0 = values_view(old(vals)@);
    loop
        invariant
            ops0 == old(ops)@,
            vals0 == values_view(old(vals)@),
            reduce_while_ge(ops0, vals0, p) == reduce_while_ge(ops@, values_view(vals@), p),
        decreases ops@.len(),
    {
        if ops.len() == 0 {
            return Ok(());
        }
        let top = ops[ops.len() - 1];
        match top {
            StackEntry::LeftGrouping => {
                return Ok(());
            },
            StackEntry::Operator(op) => {
                if op.precedence() >= p {
                    let ghost ops_before = ops@;
                    ops.pop();
                    proof {
                        assert(ops@ =~= ops_before.drop_last());
                    }
                    match reduce_top(op, vals) {
                        Ok(()) => {},
                        Err(e) => {
                            return Err(e);
                        },
                    }
                } else {
                    return Ok(());
                }
            },
        }
    }
}

fn resolve_group(ops: &mut Vec<StackEntry>, vals: &mut Vec<Value>) -> (r: Result<(), ParseError>)
    ensures
        match r {
            Ok(()) => close_group(old(ops)@, values_view(old(vals)@)) == Ok::<
                (Seq<StackEntry>, Seq<ValueView>),
                ParseError,
            >((final(ops)@, values_view(final(vals)@))),
            Err(e) => close_group(old(ops)@, values_view(old(vals)@)) == Err::<
                (Seq<StackEntry>, Seq<ValueView>),
                ParseError,
            >(e),
        },
{
    let ghost ops0 = old(ops)@;
    let ghost vals0 = values_view(old(vals)@);
    loop
        invariant
            ops0 == old(ops)@,
            vals0 == values_view(old(vals)@),
            close_group(ops0, vals0) == close_group(ops@, values_view(vals@)),
        decreases ops@.len(),
    {
        if ops.len() == 0 {
            return Err(ParseError::UnbalancedParentheses);
        }
        let top = ops[ops.len() - 1];
        let ghost ops_before = ops@;
        match top {
            StackEntry::LeftGrouping => {
                ops.pop();
                proof {
                    assert(ops@ =~= ops_before.drop_last());
                }
                return Ok(());
            },
            StackEntry::Operator(op) => {
                ops.pop();
                proof {
                    assert(ops@ =~= ops_before.drop_last());
                }
                match reduce_top(op, vals) {
                    Ok(()) => {},
                    Err(e) => {
                        return Err(e);
                    },
                }
            },
        }
    }
}

fn drain_remaining(ops: &mut Vec<StackEntry>, vals: &mut Vec<Value>) -> (r: Result<(), ParseError>)
    ensures
        match r {
            Ok(()) => drain_operators(old(ops)@, values_view(old(vals)@)) == Ok::<
                Seq<ValueView>,
                ParseError,
            >(values_view(final(vals)@)),
            Err(e) => drain_operators(old(ops)@, values_view(old(vals)@)) == Err::<
                Seq<ValueView>,
                ParseError,
            >(e),
        },
{
    let ghost ops0 = old(ops)@;
    let ghost vals0 = values_view(old(vals)@);
    loop
        invariant
            ops0 == old(ops)@,
            vals0 == values_view(old(vals)@),
            drain_operators(ops0, vals0) == drain_operators(ops@, values_view(vals@)),
        decreases ops@.len(),
    {
        if ops.len() == 0 {
            return Ok(());
        }
        let top = ops[ops.len() - 1];
        match top {
            StackEntry::LeftGrouping => {
                return Err(ParseError::UnbalancedParentheses);
            },
            StackEntry::Operator(op) => {
                let ghost ops_before = ops@;
                ops.pop();
                proof {
                    assert(ops@ =~= ops_before.drop_last());
                }
                match reduce_top(op, vals) {
                    Ok(()) => {},
                    Err(e) => {
                        return Err(e);
                    },
                }
            },
        }
    }
}

/// Parses a token sequence into the tree it denotes, or reports why it
/// denotes none: a grouping opened and never closed (or closed and never
/// opened), an operator short of operands, several expressions side by side,
/// or no expression at all.
pub fn parse(tokens: Vec<Token>) -> (r: Result<Box<Value>, ParseError>)
    ensures
        match r {
            Ok(v) => spec_parse(tokens_view(tokens@)) == Ok::<ValueView, ParseError>(v@),
            Err(e) => spec_parse(tokens_view(tokens@)) == Err::<ValueView, ParseError>(e),
        },
{
    let ghost ts = tokens_view(tokens@);
    let mut toks = tokens;
    let mut opers_stack: Vec<StackEntry> = Vec::new();
    let mut output_stack: Vec<Value> = Vec::new();
    let ghost mut i: int = 0;
    proof {
        assert(values_view(output_stack@) =~= Seq::<ValueView>::empty());
        assert(tokens_view(toks@) =~= ts.skip(0));
    }
    while toks.len() > 0
        invariant
            ts == tokens_view(tokens@),
            0 <= i <= ts.len(),
            tokens_view(toks@) == ts.skip(i),
            spec_parse(ts) == parse_from(ts, i, opers_stack@, values_view(output_stack@)),
        decreases toks@.len(),
    {
        let ghost toks_before = toks@;
        let token = toks.remove(0);
        proof {
            assert(tokens_view(toks_before).len() == toks_before.len());
            assert(ts.skip(i).len() == ts.len() - i);
            assert(i < ts.len());
            assert(tokens_view(toks_before)[0] == token@);
            assert(ts.skip(i)[0] == ts[i]);
            assert(token@ == ts[i]);
            assert forall|k: int| 0 <= k < toks@.len() implies #[trigger] tokens_view(toks@)[k]
                == ts.skip(i + 1)[k] by {
                assert(toks@[k] == toks_before[k + 1]);
                assert(tokens_view(toks@)[k] == toks_before[k + 1]@);
                assert(tokens_view(toks_before)[k + 1] == toks_before[k + 1]@);
                assert(ts.skip(i)[k + 1] == ts[i + 1 + k]);
                assert(ts.skip(i + 1)[k] == ts[i + 1 + k]);
            }
            assert(tokens_view(toks@) =~= ts.skip(i + 1));
        }
        match token {
            Token::Constant(lit) => {
                let ghost vals_before = values_view(output_stack@);
                let ghost lit_v = lit@;
                output_stack.push(Value::Constant(lit));
                proof {
                    assert(values_view(output_stack@) =~= vals_before.push(
                        ValueView::Constant(lit_v),
                    ));
                }
            },
            Token::Variable(idx) => {
                let ghost vals_before = values_view(output_stack@);
                output_stack.push(Value::Variable(idx));
                proof {
                    assert(values_view(output_stack@) =~= vals_before.push(
                        ValueView::Variable(idx),
                    ));
                }
            },
            Token::Operator(op) => {
                let p = op.precedence();
                match reduce_while_precedence(&mut opers_stack, &mut output_stack, p) {
                    Ok(()) => {},
                    Err(e) => {
                        return Err(e);
                    },
                }
                opers_stack.push(StackEntry::Operator(op));
            },
            Token::LeftGrouping => {
                opers_stack.push(StackEntry::LeftGrouping);
            },
            Token::RightGrouping => {
                match resolve_group(&mut opers_stack, &mut output_stack) {
                    Ok(()) => {},
                    Err(e) => {
                        return Err(e);
                    },
                }
            },
        }
        proof {
            i = i + 1;
        }
    }
    proof {
        assert(ts.skip(i).len() == 0);
        assert(i == ts.len());
    }
    match drain_remaining(&mut opers_stack, &mut output_stack) {
        Ok(()) => {},
        Err(e) => {
            return Err(e);
        },
    }
    if output_stack.len() == 0 {
        Err(ParseError::EmptyExpression)
    } else if output_stack.len() == 1 {
        let v = match output_stack.pop() {
            Some(v) => v,
            None => {
                return Err(ParseError::EmptyExpression);
            },
        };
        Ok(Box::new(v))
    } else {
        Err(ParseError::TooManyOperands)
    }
}

} // verus!
