//! Tokens of the expression language, the infix-to-postfix converter
//! (shunting-yard), and the postfix evaluator.
//!
//! The converter works with an explicit precedence table: multiplicative
//! operators bind tightest, then additive, then shifts, then the bitwise
//! operators, then the relational comparisons, then equality. All operators
//! are left-associative: a stack entry of equal precedence is popped before
//! the incoming operator is pushed.

use crate::value::{
    add_val, band_val, bor_val, bxor_val, div_val, mul_val, rem_val, scale100, shl_val, shr_val,
    sub_val, wider_ty, NumberType, Ty,
};
use vstd::prelude::*;

verus! {

/// Comparison operators.
#[derive(Clone, Copy, Debug, PartialEq, Eq, Structural)]
pub enum Comparison {
    Eq,
    Ne,
    Le,
    Lt,
    Ge,
    Gt,
}

/// Arithmetic, shift and bitwise operators.
#[derive(Clone, Copy, Debug, PartialEq, Eq, Structural)]
pub enum Operator {
    Add,
    Sub,
    Rem,
    Mul,
    Div,
    Shr,
    Shl,
    BitOr,
    BitAnd,
    BitXor,
}

/// The transient token pushed while scanning a lone `=`.
#[derive(Clone, Copy, Debug, PartialEq, Eq, Structural)]
pub enum Sign {
    Neq,
    Equal,
}

/// One token of an expression.
#[derive(Clone, Copy, Debug, PartialEq, Eq, Structural)]
pub enum Token {
    StartTok,
    Num(NumberType),
    Op(Operator),
    Bracket(char),
    Cmp(Comparison),
    Sign(Sign),
    EndTok,
}

/// The precedence table. Only operator and comparison tokens take part in
/// precedence; every other token is ranked below them.
pub open spec fn spec_prec(t: Token) -> int {
    match t {
        Token::Op(op) => match op {
            Operator::Mul | Operator::Div | Operator::Rem => 5,
            Operator::Add | Operator::Sub => 4,
            Operator::Shl | Operator::Shr => 3,
            Operator::BitOr | Operator::BitAnd | Operator::BitXor => 2,
        },
        Token::Cmp(c) => match c {
            Comparison::Lt | Comparison::Le | Comparison::Gt | Comparison::Ge => 1,
            Comparison::Eq | Comparison::Ne => 0,
        },
        _ => -1,
    }
}

/// True for the tokens that take part in precedence.
pub open spec fn is_opcmp(t: Token) -> bool {
    t is Op || t is Cmp
}

/// The opener matching a closing bracket.
pub open spec fn match_open(c: char) -> char {
    if c == ')' {
        '('
    } else if c == '}' {
        '{'
    } else {
        '['
    }
}

/// True for opening bracket characters.
pub open spec fn is_open(c: char) -> bool {
    c == '(' || c == '{' || c == '['
}

/// True for closing bracket characters.
pub open spec fn is_close(c: char) -> bool {
    c == ')' || c == '}' || c == ']'
}

/// Pop every operator of precedence at least `p` off the stack top:
/// the tokens emitted to the queue, in pop order, and the remaining stack.
pub open spec fn pop_ge(stack: Seq<Token>, p: int) -> (Seq<Token>, Seq<Token>)
    decreases stack.len(),
{
    if stack.len() == 0 {
        (Seq::<Token>::empty(), stack)
    } else if is_opcmp(stack.last()) && spec_prec(stack.last()) >= p {
        let (q, s) = pop_ge(stack.drop_last(), p);
        (seq![stack.last()] + q, s)
    } else {
        (Seq::<Token>::empty(), stack)
    }
}

/// Pop down to the matching opener: the tokens emitted to the queue, in pop
/// order, and the remaining stack with the opener removed. Neither bracket
/// is ever emitted. Without an opener on the stack everything is emitted.
pub open spec fn pop_to_open(stack: Seq<Token>, open: char) -> (Seq<Token>, Seq<Token>)
    decreases stack.len(),
{
    if stack.len() == 0 {
        (Seq::<Token>::empty(), stack)
    } else if stack.last() == Token::Bracket(open) {
        (Seq::<Token>::empty(), stack.drop_last())
    } else {
        let (q, s) = pop_to_open(stack.drop_last(), open);
        (seq![stack.last()] + q, s)
    }
}

/// One converter step on the output queue and operator stack. An end
/// marker closes its segment: it drains the whole operator stack to the
/// queue, top first, so `;`-separated segments never share pending
/// operators and each segment's postfix spelling stays contiguous.
pub open spec fn shunt_step(queue: Seq<Token>, stack: Seq<Token>, t: Token) -> (
    Seq<Token>,
    Seq<Token>,
) {
    match t {
        Token::Num(_) => (queue.push(t), stack),
        Token::Op(_) | Token::Cmp(_) => {
            let (q, s) = pop_ge(stack, spec_prec(t));
            (queue + q, s.push(t))
        },
        Token::Bracket(c) => {
            if is_open(c) {
                (queue, stack.push(t))
            } else if is_close(c) {
                let (q, s) = pop_to_open(stack, match_open(c));
                (queue + q, s)
            } else {
                (queue, stack)
            }
        },
        Token::EndTok => (queue + stack.reverse(), Seq::<Token>::empty()),
        _ => (queue, stack),
    }
}

/// Run the converter over the input, token by token, from a given state.
pub open spec fn shunt_run(input: Seq<Token>, queue: Seq<Token>, stack: Seq<Token>) -> (
    Seq<Token>,
    Seq<Token>,
)
    decreases input.len(),
{
    if input.len() == 0 {
        (queue, stack)
    } else {
        let (q, s) = shunt_step(queue, stack, input[0]);
        shunt_run(input.drop_first(), q, s)
    }
}

/// The postfix queue of a token sequence: run the converter, then drain the
/// remaining stack to the queue, top first.
pub open spec fn spec_postfix(input: Seq<Token>) -> Seq<Token> {
    let (q, s) = shunt_run(input, Seq::<Token>::empty(), Seq::<Token>::empty());
    q + s.reverse()
}

/// The result of a binary operator under the promotion and payload rules.
pub open spec fn apply_op(op: Operator, l: NumberType, r: NumberType) -> NumberType {
    let v = match op {
        Operator::Add => add_val(l.val as int, r.val as int),
        Operator::Sub => sub_val(l.val as int, r.val as int),
        Operator::Rem => rem_val(l.val as int, r.val as int),
        Operator::Mul => mul_val(l.val as int, r.val as int),
        Operator::Div => div_val(l.val as int, r.val as int),
        Operator::Shr => shr_val(l.val as int, r.val as int),
        Operator::Shl => shl_val(l.val as int, r.val as int),
        Operator::BitOr => bor_val(l.val as int, r.val as int),
        Operator::BitAnd => band_val(l.val as int, r.val as int),
        Operator::BitXor => bxor_val(l.val as int, r.val as int),
    };
    NumberType { ty: wider_ty(l.ty, r.ty), val: v as i64 }
}

/// The result of a comparison: a boolean-tagged one or zero. Both sides are
/// compared by payload, so the one projection serves equality and order.
pub open spec fn apply_cmp(c: Comparison, l: NumberType, r: NumberType) -> NumberType {
    let b = match c {
        Comparison::Eq => l.val == r.val,
        Comparison::Ne => l.val != r.val,
        Comparison::Le => l.val <= r.val,
        Comparison::Lt => l.val < r.val,
        Comparison::Ge => l.val >= r.val,
        Comparison::Gt => l.val > r.val,
    };
    NumberType { ty: Ty::BOOL, val: if b { 100int } else { 0int } as i64 }
}

/// One evaluator step on the operand stack. An operator or comparison that
/// does not find two operands is a documented no-op: it consumes nothing and
/// produces nothing.
pub open spec fn eval_step(stack: Seq<NumberType>, t: Token) -> Seq<NumberType> {
    match t {
        Token::Num(n) => stack.push(n),
        Token::Op(op) => {
            if stack.len() >= 2 {
                let r = stack.last();
                let l = stack[stack.len() - 2];
                stack.drop_last().drop_last().push(apply_op(op, l, r))
            } else {
                stack
            }
        },
        Token::Cmp(c) => {
            if stack.len() >= 2 {
                let r = stack.last();
                let l = stack[stack.len() - 2];
                stack.drop_last().drop_last().push(apply_cmp(c, l, r))
            } else {
                stack
            }
        },
        _ => stack,
    }
}

/// Run the evaluator over a postfix queue from a given operand stack.
pub open spec fn eval_run(queue: Seq<Token>, stack: Seq<NumberType>) -> Seq<NumberType>
    decreases queue.len(),
{
    if queue.len() == 0 {
        stack
    } else {
        eval_run(queue.drop_first(), eval_step(stack, queue[0]))
    }
}

/// The value of a postfix queue: whatever the evaluator leaves on top of the
/// operand stack, or no result at all for a blank queue.
pub open spec fn spec_eval(queue: Seq<Token>) -> Option<NumberType> {
    let s = eval_run(queue, Seq::<NumberType>::empty());
    if s.len() == 0 {
        None
    } else {
        Some(s.last())
    }
}

/// One or more expressions, already reordered into a postfix queue.
#[derive(Clone, Debug)]
pub struct Expresions {
    /// The postfix token queue, the converter's sole output.
    pub queue: Vec<Token>,
}

/// Executable precedence of an operator or comparison token.
fn prec(t: &Token) -> (r: u8)
    requires
        is_opcmp(*t),
    ensures
        r as int == spec_prec(*t),
{
    match t {
        Token::Op(op) => match op {
            Operator::Mul | Operator::Div | Operator::Rem => 5,
            Operator::Add | Operator::Sub => 4,
            Operator::Shl | Operator::Shr => 3,
            Operator::BitOr | Operator::BitAnd | Operator::BitXor => 2,
        },
        Token::Cmp(c) => match c {
            Comparison::Lt | Comparison::Le | Comparison::Gt | Comparison::Ge => 1,
            Comparison::Eq | Comparison::Ne => 0,
        },
        _ => 0,
    }
}

/// Pop operators of precedence at least `p` from the stack into the queue.
fn drain_ge(queue: &mut Vec<Token>, stack: &mut Vec<Token>, p: u8)
    ensures
        final(queue)@ == old(queue)@ + pop_ge(old(stack)@, p as int).0,
        final(stack)@ == pop_ge(old(stack)@, p as int).1,
{
    loop
        invariant
            old(queue)@ + pop_ge(old(stack)@, p as int).0 == queue@ + pop_ge(stack@, p as int).0,
            pop_ge(old(stack)@, p as int).1 == pop_ge(stack@, p as int).1,
        decreases stack@.len(),
    {
        let n = stack.len();
        if n == 0 {
            return ;
        }
        let top = stack[n - 1];
        let keep = match top {
            Token::Op(_) | Token::Cmp(_) => prec(&top) >= p,
            _ => false,
        };
        if !keep {
            return ;
        }
        proof {
            assert(stack@.last() == top);
            assert(stack@.drop_last() == stack@.subrange(0, stack@.len() - 1));
        }
        let t = stack.pop().unwrap();
        queue.push(t);
    }
}

/// Pop down to the matching opener, which is discarded; everything above it
/// goes to the queue.
fn drain_to_open(queue: &mut Vec<Token>, stack: &mut Vec<Token>, open: char)
    ensures
        final(queue)@ == old(queue)@ + pop_to_open(old(stack)@, open).0,
        final(stack)@ == pop_to_open(old(stack)@, open).1,
{
    loop
        invariant
            old(queue)@ + pop_to_open(old(stack)@, open).0 == queue@ + pop_to_open(
                stack@,
                open,
            ).0,
            pop_to_open(old(stack)@, open).1 == pop_to_open(stack@, open).1,
        decreases stack@.len(),
    {
        let n = stack.len();
        if n == 0 {
            return ;
        }
        let top = stack[n - 1];
        proof {
            assert(stack@.last() == top);
            assert(stack@.drop_last() == stack@.subrange(0, stack@.len() - 1));
        }
        if top == Token::Bracket(open) {
            stack.pop();
            return ;
        }
        let t = stack.pop().unwrap();
        queue.push(t);
    }
}

/// Pop the whole stack into the queue, top first.
fn drain_all(queue: &mut Vec<Token>, stack: &mut Vec<Token>)
    ensures
        final(queue)@ == old(queue)@ + old(stack)@.reverse(),
        final(stack)@ == Seq::<Token>::empty(),
{
    while stack.len() > 0
        invariant
            queue@ + stack@.reverse() == old(queue)@ + old(stack)@.reverse(),
        decreases stack@.len(),
    {
        let ghost pre_stack = stack@;
        proof {
            assert(pre_stack.reverse() =~= seq![pre_stack.last()] + pre_stack.drop_last().reverse());
        }
        let t = stack.pop().unwrap();
        queue.push(t);
    }
    proof {
        assert(stack@ =~= Seq::<Token>::empty());
        assert(stack@.reverse() =~= Seq::<Token>::empty());
        assert(queue@ =~= queue@ + stack@.reverse());
        assert(queue@ =~= old(queue)@ + old(stack)@.reverse());
    }
}

impl Expresions {
    /// Convert a token sequence, in source order, into its postfix queue.
    pub fn from_parser(tokens: Vec<Token>) -> (r: Self)
        ensures
            r.queue@ == spec_postfix(tokens@),
    {
        let ghost all = tokens@;
        let mut queue: Vec<Token> = Vec::new();
        let mut stack: Vec<Token> = Vec::new();
        let mut i: usize = 0;
        proof {
            assert(all.skip(0) =~= all);
        }
        while i < tokens.len()
            invariant
                i <= tokens@.len(),
                tokens@ == all,
                shunt_run(all.skip(i as int), queue@, stack@) == shunt_run(
                    all,
                    Seq::<Token>::empty(),
                    Seq::<Token>::empty(),
                ),
            decreases tokens@.len() - i,
        {
            let ghost pre_queue = queue@;
            let ghost pre_stack = stack@;
            let t = tokens[i];
            proof {
                assert(all.skip(i as int)[0] == t);
                assert(all.skip(i as int).drop_first() =~= all.skip(i + 1));
            }
            match t {
                Token::Num(_) => queue.push(t),
                Token::Op(_) | Token::Cmp(_) => {
                    let p = prec(&t);
                    drain_ge(&mut queue, &mut stack, p);
                    stack.push(t);
                },
                Token::Bracket(c) => {
                    if c == '(' || c == '{' || c == '[' {
                        stack.push(t);
                    } else if c == ')' {
                        drain_to_open(&mut queue, &mut stack, '(');
                    } else if c == '}' {
                        drain_to_open(&mut queue, &mut stack, '{');
                    } else if c == ']' {
                        drain_to_open(&mut queue, &mut stack, '[');
                    }
                },
                Token::EndTok => {
                    // The segment ends here: what it left pending must not
                    // reach the next segment.
                    drain_all(&mut queue, &mut stack);
                    proof {
                        assert(stack@ =~= Seq::<Token>::empty());
                    }
                },
                _ => {},
            }
            proof {
                assert((queue@, stack@) == shunt_step(pre_queue, pre_stack, t));
            }
            i = i + 1;
        }
        // Drain what is left of the operator stack, top first.
        drain_all(&mut queue, &mut stack);
        proof {
            assert(queue@ =~= spec_postfix(all));
        }
        Expresions { queue }
    }

    /// Evaluate the postfix queue with an operand stack and hand back what
    /// remains on top, if anything. An operator or comparison short of
    /// operands is skipped without consuming either (see `eval_step`).
    pub fn eval(&self) -> (r: Option<NumberType>)
        ensures
            r == spec_eval(self.queue@),
    {
        let ghost all = self.queue@;
        let mut stack: Vec<NumberType> = Vec::new();
        let mut i: usize = 0;
        proof {
            assert(all.skip(0) =~= all);
        }
        while i < self.queue.len()
            invariant
                i <= all.len(),
                self.queue@ == all,
                eval_run(all.skip(i as int), stack@) == eval_run(
                    all,
                    Seq::<NumberType>::empty(),
                ),
            decreases all.len() - i,
        {
            let ghost pre_stack = stack@;
            let t = self.queue[i];
            proof {
                assert(all.skip(i as int)[0] == t);
                assert(all.skip(i as int).drop_first() =~= all.skip(i + 1));
            }
            match t {
                Token::Num(n) => stack.push(n),
                Token::Op(op) => {
                    if stack.len() >= 2 {
                        let r = stack.pop().unwrap();
                        let l = stack.pop().unwrap();
                        proof {
                            assert(pre_stack.drop_last() == pre_stack.subrange(
                                0,
                                pre_stack.len() - 1,
                            ));
                            assert(pre_stack.drop_last().drop_last() == pre_stack.drop_last()
                                .subrange(0, pre_stack.drop_last().len() - 1));
                        }
                        let v = match op {
                            Operator::Add => l.add(r),
                            Operator::Sub => l.sub(r),
                            Operator::Rem => l.rem(r),
                            Operator::Mul => l.mul(r),
                            Operator::Div => l.div(r),
                            Operator::Shr => l.shr(r),
                            Operator::Shl => l.shl(r),
                            Operator::BitOr => l.bitor(r),
                            Operator::BitAnd => l.bitand(r),
                            Operator::BitXor => l.bitxor(r),
                        };
                        stack.push(v);
                        proof {
                            assert(stack@ =~= eval_step(pre_stack, t));
                        }
                    }
                },
                Token::Cmp(c) => {
                    if stack.len() >= 2 {
                        let r = stack.pop().unwrap();
                        let l = stack.pop().unwrap();
                        proof {
                            assert(pre_stack.drop_last() == pre_stack.subrange(
                                0,
                                pre_stack.len() - 1,
                            ));
                            assert(pre_stack.drop_last().drop_last() == pre_stack.drop_last()
                                .subrange(0, pre_stack.drop_last().len() - 1));
                        }
                        let b = match c {
                            Comparison::Eq => l.cmp_eq(&r),
                            Comparison::Ne => !l.cmp_eq(&r),
                            Comparison::Le => !r.cmp_lt(&l),
                            Comparison::Lt => l.cmp_lt(&r),
                            Comparison::Ge => !l.cmp_lt(&r),
                            Comparison::Gt => r.cmp_lt(&l),
                        };
                        let v = NumberType::new(Ty::BOOL, if b { 1 } else { 0 });
                        stack.push(v);
                        proof {
                            assert(stack@ =~= eval_step(pre_stack, t));
                        }
                    }
                },
                _ => {},
            }
            i = i + 1;
        }
        if stack.len() == 0 {
            None
        } else {
            Some(stack[stack.len() - 1])
        }
    }
}

} // verus!
