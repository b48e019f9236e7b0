//! The laws the pipeline obeys: for any fully parenthesized well-formed
//! expression, converting its tokens to postfix and evaluating the queue
//! yields exactly the value that the promotion and payload rules assign to
//! the expression, one operator at a time.

use crate::tok::{
    apply_cmp, apply_op, eval_run, eval_step, pop_ge, pop_to_open, shunt_run, shunt_step,
    spec_eval, spec_postfix, Comparison, Operator, Token,
};
use crate::value::NumberType;
use vstd::prelude::*;

verus! {

/// A fully parenthesized well-formed expression: a literal, or two
/// subexpressions joined by an operator or comparison, wrapped in
/// parentheses.
pub enum Expr {
    /// A numeric literal.
    Lit(NumberType),
    /// A parenthesized binary operation.
    BinOp(Box<Expr>, Operator, Box<Expr>),
    /// A parenthesized comparison.
    BinCmp(Box<Expr>, Comparison, Box<Expr>),
}

/// The token spelling of an expression, fully parenthesized.
pub open spec fn tokens_of(e: Expr) -> Seq<Token>
    decreases e,
{
    match e {
        Expr::Lit(n) => seq![Token::Num(n)],
        Expr::BinOp(l, op, r) => seq![Token::Bracket('(')] + tokens_of(*l) + seq![
            Token::Op(op),
        ] + tokens_of(*r) + seq![Token::Bracket(')')],
        Expr::BinCmp(l, c, r) => seq![Token::Bracket('(')] + tokens_of(*l) + seq![
            Token::Cmp(c),
        ] + tokens_of(*r) + seq![Token::Bracket(')')],
    }
}

/// The postfix spelling of an expression: operands first, operator last.
pub open spec fn rpn_of(e: Expr) -> Seq<Token>
    decreases e,
{
    match e {
        Expr::Lit(n) => seq![Token::Num(n)],
        Expr::BinOp(l, op, r) => rpn_of(*l) + rpn_of(*r) + seq![Token::Op(op)],
        Expr::BinCmp(l, c, r) => rpn_of(*l) + rpn_of(*r) + seq![Token::Cmp(c)],
    }
}

/// The value of an expression under the promotion and payload rules,
/// applied one operator at a time.
pub open spec fn denote(e: Expr) -> NumberType
    decreases e,
{
    match e {
        Expr::Lit(n) => n,
        Expr::BinOp(l, op, r) => apply_op(op, denote(*l), denote(*r)),
        Expr::BinCmp(l, c, r) => apply_cmp(c, denote(*l), denote(*r)),
    }
}

/// Running the converter over a concatenation is running it over the parts
/// in turn.
proof fn lemma_shunt_run_concat(a: Seq<Token>, b: Seq<Token>, q: Seq<Token>, st: Seq<Token>)
    ensures
        shunt_run(a + b, q, st) == shunt_run(b, shunt_run(a, q, st).0, shunt_run(a, q, st).1),
    decreases a.len(),
{
    if a.len() == 0 {
        assert(a + b =~= b);
    } else {
        let (q1, s1) = shunt_step(q, st, a[0]);
        assert((a + b)[0] == a[0]);
        assert((a + b).drop_first() =~= a.drop_first() + b);
        lemma_shunt_run_concat(a.drop_first(), b, q1, s1);
    }
}

/// Running the evaluator over a concatenation is running it over the parts
/// in turn.
proof fn lemma_eval_run_concat(a: Seq<Token>, b: Seq<Token>, st: Seq<NumberType>)
    ensures
        eval_run(a + b, st) == eval_run(b, eval_run(a, st)),
    decreases a.len(),
{
    if a.len() == 0 {
        assert(a + b =~= b);
    } else {
        assert((a + b)[0] == a[0]);
        assert((a + b).drop_first() =~= a.drop_first() + b);
        lemma_eval_run_concat(a.drop_first(), b, eval_step(st, a[0]));
    }
}

/// Running the converter over a single token is one step.
proof fn lemma_shunt_run_one(t: Token, q: Seq<Token>, st: Seq<Token>)
    ensures
        shunt_run(seq![t], q, st) == shunt_step(q, st, t),
{
    assert(seq![t][0] == t);
    assert(seq![t].drop_first() =~= Seq::<Token>::empty());
    let (q1, s1) = shunt_step(q, st, t);
    assert(shunt_run(seq![t], q, st) == shunt_run(Seq::<Token>::empty(), q1, s1));
}

/// Running the evaluator over a single token is one step.
proof fn lemma_eval_run_one(t: Token, st: Seq<NumberType>)
    ensures
        eval_run(seq![t], st) == eval_step(st, t),
{
    assert(seq![t][0] == t);
    assert(seq![t].drop_first() =~= Seq::<Token>::empty());
    assert(eval_run(seq![t], st) == eval_run(Seq::<Token>::empty(), eval_step(st, t)));
}

/// Inside its parentheses, an expression flows through the converter
/// without touching what lies beneath it on the stack: its postfix spelling
/// is appended to the queue and the stack comes back unchanged.
proof fn lemma_shunt_expr(e: Expr, q: Seq<Token>, st: Seq<Token>)
    ensures
        shunt_run(tokens_of(e), q, st) == (q + rpn_of(e), st),
    decreases e,
{
    match e {
        Expr::Lit(n) => {
            let t = Token::Num(n);
            lemma_shunt_run_one(t, q, st);
            assert(q.push(t) =~= q + seq![t]);
            assert(rpn_of(e) =~= seq![t]);
        },
        Expr::BinOp(l, op, r) => {
            assert forall|q2: Seq<Token>, s2: Seq<Token>| #[trigger] shunt_run(
                tokens_of(*l),
                q2,
                s2,
            ) == (q2 + rpn_of(*l), s2) by {
                lemma_shunt_expr(*l, q2, s2);
            }
            assert forall|q2: Seq<Token>, s2: Seq<Token>| #[trigger] shunt_run(
                tokens_of(*r),
                q2,
                s2,
            ) == (q2 + rpn_of(*r), s2) by {
                lemma_shunt_expr(*r, q2, s2);
            }
            lemma_shunt_binary(*l, Token::Op(op), *r, q, st);
            assert(rpn_of(e) =~= rpn_of(*l) + rpn_of(*r) + seq![Token::Op(op)]);
        },
        Expr::BinCmp(l, c, r) => {
            assert forall|q2: Seq<Token>, s2: Seq<Token>| #[trigger] shunt_run(
                tokens_of(*l),
                q2,
                s2,
            ) == (q2 + rpn_of(*l), s2) by {
                lemma_shunt_expr(*l, q2, s2);
            }
            assert forall|q2: Seq<Token>, s2: Seq<Token>| #[trigger] shunt_run(
                tokens_of(*r),
                q2,
                s2,
            ) == (q2 + rpn_of(*r), s2) by {
                lemma_shunt_expr(*r, q2, s2);
            }
            lemma_shunt_binary(*l, Token::Cmp(c), *r, q, st);
            assert(rpn_of(e) =~= rpn_of(*l) + rpn_of(*r) + seq![Token::Cmp(c)]);
        },
    }
}

/// The parenthesized binary case of `lemma_shunt_expr`, for an operator or
/// comparison token `t` joining `l` and `r`.
proof fn lemma_shunt_binary(l: Expr, t: Token, r: Expr, q: Seq<Token>, st: Seq<Token>)
    requires
        t is Op || t is Cmp,
        forall|q2: Seq<Token>, s2: Seq<Token>|
            #[trigger] shunt_run(tokens_of(l), q2, s2) == (q2 + rpn_of(l), s2),
        forall|q2: Seq<Token>, s2: Seq<Token>|
            #[trigger] shunt_run(tokens_of(r), q2, s2) == (q2 + rpn_of(r), s2),
    ensures
        shunt_run(
            seq![Token::Bracket('(')] + tokens_of(l) + seq![t] + tokens_of(r) + seq![
                Token::Bracket(')'),
            ],
            q,
            st,
        ) == (q + (rpn_of(l) + rpn_of(r) + seq![t]), st),
{
    let open = Token::Bracket('(');
    let close = Token::Bracket(')');
    let whole = seq![open] + tokens_of(l) + seq![t] + tokens_of(r) + seq![close];
    let rest1 = tokens_of(l) + seq![t] + tokens_of(r) + seq![close];
    // The opening bracket goes to the stack.
    assert(whole[0] == open);
    assert(whole.drop_first() =~= rest1);
    assert(shunt_run(whole, q, st) == shunt_run(rest1, q, st.push(open)));
    // The left operand appends its postfix spelling.
    let rest2 = seq![t] + tokens_of(r) + seq![close];
    assert(rest1 =~= tokens_of(l) + rest2);
    lemma_shunt_run_concat(tokens_of(l), rest2, q, st.push(open));
    let q1 = q + rpn_of(l);
    // The operator sees the open bracket on top: nothing pops, it is pushed.
    assert(rest2[0] == t);
    let rest3 = tokens_of(r) + seq![close];
    assert(rest2.drop_first() =~= rest3);
    assert(pop_ge(st.push(open), crate::tok::spec_prec(t)) == (
        Seq::<Token>::empty(),
        st.push(open),
    ));
    assert(q1 + Seq::<Token>::empty() =~= q1);
    assert(shunt_run(rest2, q1, st.push(open)) == shunt_run(
        rest3,
        q1,
        st.push(open).push(t),
    ));
    // The right operand appends its postfix spelling.
    lemma_shunt_run_concat(tokens_of(r), seq![close], q1, st.push(open).push(t));
    let q2 = q1 + rpn_of(r);
    // The closing bracket pops the operator and discards both brackets.
    assert(st.push(open).push(t).drop_last() =~= st.push(open));
    assert(st.push(open).drop_last() =~= st);
    assert(pop_to_open(st.push(open), '(') == (Seq::<Token>::empty(), st));
    assert(pop_to_open(st.push(open).push(t), '(') == (seq![t], st)) by {
        assert(st.push(open).push(t).last() == t);
        assert(seq![t] + Seq::<Token>::empty() =~= seq![t]);
    }
    lemma_shunt_run_one(close, q2, st.push(open).push(t));
    assert(shunt_step(q2, st.push(open).push(t), close) == (q2 + seq![t], st));
    assert(q2 + seq![t] =~= q + (rpn_of(l) + rpn_of(r) + seq![t]));
}

/// The postfix spelling of an expression evaluates on top of any operand
/// stack to exactly the expression's value.
proof fn lemma_eval_expr(e: Expr, st: Seq<NumberType>)
    ensures
        eval_run(rpn_of(e), st) == st.push(denote(e)),
    decreases e,
{
    match e {
        Expr::Lit(n) => {
            lemma_eval_run_one(Token::Num(n), st);
            assert(rpn_of(e) =~= seq![Token::Num(n)]);
        },
        Expr::BinOp(l, op, r) => {
            lemma_eval_run_concat(rpn_of(*l), rpn_of(*r), st);
            lemma_eval_expr(*l, st);
            lemma_eval_expr(*r, st.push(denote(*l)));
            let t = Token::Op(op);
            let st2 = st.push(denote(*l)).push(denote(*r));
            lemma_eval_run_concat(rpn_of(*l) + rpn_of(*r), seq![t], st);
            lemma_eval_run_one(t, st2);
            assert(rpn_of(e) =~= (rpn_of(*l) + rpn_of(*r)) + seq![t]);
            assert(st2.drop_last().drop_last() =~= st);
            assert(eval_step(st2, t) =~= st.push(apply_op(op, denote(*l), denote(*r))));
        },
        Expr::BinCmp(l, c, r) => {
            lemma_eval_run_concat(rpn_of(*l), rpn_of(*r), st);
            lemma_eval_expr(*l, st);
            lemma_eval_expr(*r, st.push(denote(*l)));
            let t = Token::Cmp(c);
            let st2 = st.push(denote(*l)).push(denote(*r));
            lemma_eval_run_concat(rpn_of(*l) + rpn_of(*r), seq![t], st);
            lemma_eval_run_one(t, st2);
            assert(rpn_of(e) =~= (rpn_of(*l) + rpn_of(*r)) + seq![t]);
            assert(st2.drop_last().drop_last() =~= st);
            assert(eval_step(st2, t) =~= st.push(apply_cmp(c, denote(*l), denote(*r))));
        },
    }
}

/// Segments are independent: two fully parenthesized well-formed
/// expressions separated by a segment break (the end and start markers the
/// tokenizer emits for `;`) convert to their postfix spellings back to
/// back — no pending operator crosses the break — and evaluating that
/// queue stacks the segments' values in order, the last segment's value on
/// top as the overall result.
pub proof fn theorem_segments_independent(e1: Expr, e2: Expr)
    ensures
        spec_postfix(
            seq![Token::StartTok] + tokens_of(e1) + seq![Token::EndTok, Token::StartTok]
                + tokens_of(e2) + seq![Token::EndTok],
        ) == rpn_of(e1) + rpn_of(e2),
        spec_eval(rpn_of(e1) + rpn_of(e2)) == Some(denote(e2)),
{
    let emptyq = Seq::<Token>::empty();
    let break_toks = seq![Token::EndTok, Token::StartTok];
    let whole = seq![Token::StartTok] + tokens_of(e1) + break_toks + tokens_of(e2) + seq![
        Token::EndTok,
    ];
    // The leading start marker changes nothing.
    let rest1 = tokens_of(e1) + break_toks + tokens_of(e2) + seq![Token::EndTok];
    assert(whole[0] == Token::StartTok);
    assert(whole.drop_first() =~= rest1);
    assert(shunt_run(whole, emptyq, emptyq) == shunt_run(rest1, emptyq, emptyq));
    // The first segment converts on its own.
    let rest2 = break_toks + tokens_of(e2) + seq![Token::EndTok];
    assert(rest1 =~= tokens_of(e1) + rest2);
    lemma_shunt_run_concat(tokens_of(e1), rest2, emptyq, emptyq);
    lemma_shunt_expr(e1, emptyq, emptyq);
    assert(emptyq + rpn_of(e1) =~= rpn_of(e1));
    // The segment break drains the (already empty) stack and starts anew.
    let rest3 = tokens_of(e2) + seq![Token::EndTok];
    assert(rest2[0] == Token::EndTok);
    assert(rest2.drop_first() =~= seq![Token::StartTok] + rest3);
    assert(emptyq.reverse() =~= emptyq);
    assert(rpn_of(e1) + emptyq.reverse() =~= rpn_of(e1));
    assert(shunt_run(rest2, rpn_of(e1), emptyq) == shunt_run(
        seq![Token::StartTok] + rest3,
        rpn_of(e1),
        emptyq,
    ));
    assert((seq![Token::StartTok] + rest3)[0] == Token::StartTok);
    assert((seq![Token::StartTok] + rest3).drop_first() =~= rest3);
    // The second segment converts on its own.
    lemma_shunt_run_concat(tokens_of(e2), seq![Token::EndTok], rpn_of(e1), emptyq);
    lemma_shunt_expr(e2, rpn_of(e1), emptyq);
    // The final end marker drains the empty stack once more.
    lemma_shunt_run_one(Token::EndTok, rpn_of(e1) + rpn_of(e2), emptyq);
    assert((rpn_of(e1) + rpn_of(e2)) + emptyq.reverse() =~= rpn_of(e1) + rpn_of(e2));
    assert(spec_postfix(whole) =~= rpn_of(e1) + rpn_of(e2));
    // Each segment's value lands on the operand stack; the last tops it.
    lemma_eval_run_concat(rpn_of(e1), rpn_of(e2), Seq::<NumberType>::empty());
    lemma_eval_expr(e1, Seq::<NumberType>::empty());
    lemma_eval_expr(e2, Seq::<NumberType>::empty().push(denote(e1)));
    let fin = Seq::<NumberType>::empty().push(denote(e1)).push(denote(e2));
    assert(fin.len() == 2);
    assert(fin.last() == denote(e2));
}

/// The law of the pipeline: the tokens of a fully parenthesized well-formed
/// expression, between the start and end markers the tokenizer adds,
/// convert to exactly the expression's postfix spelling, and evaluating
/// that queue yields exactly the expression's value under the promotion and
/// payload rules.
pub proof fn theorem_pipeline_correct(e: Expr)
    ensures
        spec_postfix(seq![Token::StartTok] + tokens_of(e) + seq![Token::EndTok]) == rpn_of(e),
        spec_eval(rpn_of(e)) == Some(denote(e)),
{
    let whole = seq![Token::StartTok] + tokens_of(e) + seq![Token::EndTok];
    // The start marker changes nothing.
    assert(whole[0] == Token::StartTok);
    assert(whole.drop_first() =~= tokens_of(e) + seq![Token::EndTok]);
    lemma_shunt_run_concat(
        tokens_of(e),
        seq![Token::EndTok],
        Seq::<Token>::empty(),
        Seq::<Token>::empty(),
    );
    lemma_shunt_expr(e, Seq::<Token>::empty(), Seq::<Token>::empty());
    // The end marker changes nothing, and the stack it leaves is empty.
    lemma_shunt_run_one(Token::EndTok, rpn_of(e), Seq::<Token>::empty());
    assert(Seq::<Token>::empty() + rpn_of(e) =~= rpn_of(e));
    assert(Seq::<Token>::empty().reverse() =~= Seq::<Token>::empty());
    assert(rpn_of(e) + Seq::<Token>::empty() =~= rpn_of(e));
    // Evaluation of the postfix spelling.
    lemma_eval_expr(e, Seq::<NumberType>::empty());
    let fin = Seq::<NumberType>::empty().push(denote(e));
    assert(fin.len() == 1);
    assert(fin.last() == denote(e));
}

} // verus!

