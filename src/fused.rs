use vstd::prelude::*;
use crate::arith::{apply_fused, basic_op, checked_power};
use crate::error::ExprError;
use crate::operator::{is_left_assoc, is_op_char, prec_of, yields_to, Associativity, Operator};
use crate::rpn::sole_value;
use crate::shunting::ops_ok;
use crate::stack::Stack;
use crate::tokenizer::{lex, op_char_of, tokenize, Tokens};

verus! {

/// The operator `c` applied to the two values on top of `vals` (the upper
/// one is the right operand), which it replaces by its result.
pub open spec fn fused_apply(vals: Seq<u32>, c: char) -> Result<Seq<u32>, ExprError> {
    if vals.len() < 2 {
        Err(ExprError::StackUnderflow)
    } else {
        match apply_fused(c, vals[vals.len() - 2], vals[vals.len() - 1]) {
            Ok(x) => Ok(vals.drop_last().drop_last().push(x)),
            Err(e) => Err(e),
        }
    }
}

/// On `)`: operators are popped and applied until a `(`, which is dropped.
pub open spec fn fused_close(vals: Seq<u32>, ops: Seq<char>) -> Result<(Seq<u32>, Seq<char>), ExprError>
    decreases ops.len(),
{
    if ops.len() == 0 {
        Err(ExprError::StackUnderflow)
    } else if ops.last() == '(' {
        Ok((vals, ops.drop_last()))
    } else {
        match fused_apply(vals, ops.last()) {
            Ok(v) => fused_close(v, ops.drop_last()),
            Err(e) => Err(e),
        }
    }
}

/// On an operator `o1`: operators are popped and applied while the top
/// yields to `o1`.
pub open spec fn fused_yield(vals: Seq<u32>, ops: Seq<char>, o1: char) -> Result<(Seq<u32>, Seq<char>), ExprError>
    decreases ops.len(),
{
    if ops.len() > 0 && yields_to(ops.last(), o1) {
        match fused_apply(vals, ops.last()) {
            Ok(v) => fused_yield(v, ops.drop_last(), o1),
            Err(e) => Err(e),
        }
    } else {
        Ok((vals, ops))
    }
}

/// At the end of the input: the rest of the stack is popped and applied; a
/// `(` left on it is unbalanced.
pub open spec fn fused_drain(vals: Seq<u32>, ops: Seq<char>) -> Result<Seq<u32>, ExprError>
    decreases ops.len(),
{
    if ops.len() == 0 {
        Ok(vals)
    } else if ops.last() == '(' {
        Err(ExprError::UnbalancedParentheses)
    } else {
        match fused_apply(vals, ops.last()) {
            Ok(v) => fused_drain(v, ops.drop_last()),
            Err(e) => Err(e),
        }
    }
}

/// The shunting-yard control flow over the tokens `ts` from value stack
/// `vals` and operator stack `ops`, each operator applied as it leaves the
/// stack: the final value stack, or the first error.
pub open spec fn fused_run(vals: Seq<u32>, ops: Seq<char>, ts: Seq<Tokens>) -> Result<Seq<u32>, ExprError>
    decreases ts.len(),
{
    if ts.len() == 0 {
        fused_drain(vals, ops)
    } else {
        let t = ts[0];
        let rest = ts.skip(1);
        match t {
            Tokens::Number(v) => fused_run(vals.push(v), ops, rest),
            Tokens::ParenLeft => fused_run(vals, ops.push('('), rest),
            Tokens::ParenRight => match fused_close(vals, ops) {
                Ok((v, s)) => fused_run(v, s, rest),
                Err(e) => Err(e),
            },
            _ => {
                let c = op_char_of(t)->Some_0;
                match fused_yield(vals, ops, c) {
                    Ok((v, s)) => fused_run(v, s.push(c), rest),
                    Err(e) => Err(e),
                }
            },
        }
    }
}

/// The value of the infix tokens `ts`, `^` read as a power.
pub open spec fn fused_tokens_value(ts: Seq<Tokens>) -> Result<u32, ExprError> {
    sole_value(fused_run(Seq::empty(), Seq::empty(), ts))
}

/// The value of the infix text `s`, `^` read as a power.
pub open spec fn fused_value(s: Seq<char>) -> Result<u32, ExprError> {
    match lex(s) {
        Ok(ts) => fused_tokens_value(ts),
        Err(e) => Err(e),
    }
}

/// The result of one operator of the fused evaluator; see `apply_fused`.
fn fused_op(op: char, left: u32, right: u32) -> (r: Result<u32, ExprError>)
    ensures
        r == apply_fused(op, left, right),
{
    if op == '^' {
        match checked_power(left, right) {
            Some(v) => Ok(v),
            None => Err(ExprError::ArithmeticOverflow),
        }
    } else {
        basic_op(op, left, right)
    }
}

/// Puts a value on the output.
pub fn evaluator_add_to_output(output: &mut Vec<u32>, n: u32)
    ensures
        final(output)@ == old(output)@.push(n),
{
    output.push(n);
}

/// Pops the top operator of `st` and applies it to the two values on top
/// of `output`, which it removes; the result is returned, not pushed. A `(`
/// on top is unbalanced.
pub fn evaluator_handle_pop(st: &mut Stack<char>, output: &mut Vec<u32>) -> (r: Result<u32, ExprError>)
    ensures
        old(st)@.len() == 0 ==> r == Err::<u32, ExprError>(ExprError::StackUnderflow),
        old(st)@.len() > 0 ==> final(st)@ == old(st)@.drop_last(),
        old(st)@.len() > 0 && old(st)@.last() == '(' ==> r == Err::<u32, ExprError>(ExprError::UnbalancedParentheses),
        old(st)@.len() > 0 && old(st)@.last() != '(' ==> match fused_apply(old(output)@, old(st)@.last()) {
            Ok(v) => r == Ok::<u32, ExprError>(v.last()) && final(output)@ == v.drop_last()
                && final(st)@ == old(st)@.drop_last(),
            Err(e) => r == Err::<u32, ExprError>(e),
        },
{
    let op = match st.pop() {
        Ok(c) => c,
        Err(e) => {
            return Err(e);
        },
    };
    if op == '(' {
        return Err(ExprError::UnbalancedParentheses);
    }
    let right = match output.pop() {
        Some(x) => x,
        None => {
            return Err(ExprError::StackUnderflow);
        },
    };
    let left = match output.pop() {
        Some(x) => x,
        None => {
            return Err(ExprError::StackUnderflow);
        },
    };
    let r = fused_op(op, left, right);
    proof {
        if let Ok(x) = r {
            assert(old(output)@.drop_last().drop_last().push(x).drop_last() =~= output@);
        }
    }
    r
}

proof fn lemma_pop_keeps_ops_ok(before: Seq<char>, after: Seq<char>)
    requires
        ops_ok(before),
        before.len() > 0,
        after == before.drop_last(),
    ensures
        ops_ok(after),
{
    assert forall|i: int| 0 <= i < after.len() implies #[trigger] after[i] == '(' || is_op_char(after[i]) by {
        assert(after[i] == before[i]);
    }
}

/// Pops the top operator (not `(`) and pushes its result onto `output`.
fn apply_top(st: &mut Stack<char>, output: &mut Vec<u32>) -> (r: Result<(), ExprError>)
    requires
        ops_ok(old(st)@),
        old(st)@.len() > 0,
        old(st)@.last() != '(',
    ensures
        ops_ok(final(st)@),
        match fused_apply(old(output)@, old(st)@.last()) {
            Ok(v) => r is Ok && final(output)@ == v && final(st)@ == old(st)@.drop_last(),
            Err(e) => r == Err::<(), ExprError>(e),
        },
{
    match evaluator_handle_pop(st, output) {
        Ok(x) => {
            evaluator_add_to_output(output, x);
            proof {
                lemma_pop_keeps_ops_ok(old(st)@, st@);
                let v = fused_apply(old(output)@, old(st)@.last())->Ok_0;
                assert(v.drop_last().push(v.last()) =~= v);
            }
            Ok(())
        },
        Err(e) => {
            proof {
                lemma_pop_keeps_ops_ok(old(st)@, st@);
            }
            Err(e)
        },
    }
}

/// On `)`: pops and applies operators up to the nearest `(`, which is
/// dropped.
fn fused_close_paren(st: &mut Stack<char>, output: &mut Vec<u32>) -> (r: Result<(), ExprError>)
    requires
        ops_ok(old(st)@),
    ensures
        ops_ok(final(st)@),
        match fused_close(old(output)@, old(st)@) {
            Ok((v, s)) => r is Ok && final(output)@ == v && final(st)@ == s,
            Err(e) => r == Err::<(), ExprError>(e),
        },
{
    loop
        invariant
            ops_ok(st@),
            fused_close(old(output)@, old(st)@) == fused_close(output@, st@),
        decreases st@.len(),
    {
        let top = match st.peek() {
            Some(t) => *t,
            None => {
                return Err(ExprError::StackUnderflow);
            },
        };
        if top == '(' {
            let ghost before = st@;
            let _ = st.pop();
            proof {
                lemma_pop_keeps_ops_ok(before, st@);
            }
            return Ok(());
        }
        match apply_top(st, output) {
            Ok(()) => {},
            Err(e) => {
                return Err(e);
            },
        }
    }
}

/// On an operator `o1`: pops and applies operators while the top yields
/// to `o1`.
fn fused_yield_to(st: &mut Stack<char>, output: &mut Vec<u32>, o1: char) -> (r: Result<(), ExprError>)
    requires
        ops_ok(old(st)@),
        is_op_char(o1),
    ensures
        ops_ok(final(st)@),
        match fused_yield(old(output)@, old(st)@, o1) {
            Ok((v, s)) => r is Ok && final(output)@ == v && final(st)@ == s,
            Err(e) => r == Err::<(), ExprError>(e),
        },
{
    let p1 = match Operator::get_precedence(&o1) {
        Ok(p) => p,
        Err(e) => {
            return Err(e);
        },
    };
    let left = match Operator::get_associativity(o1) {
        Ok(a) => a == Associativity::Left,
        Err(e) => {
            return Err(e);
        },
    };
    loop
        invariant
            ops_ok(st@),
            is_op_char(o1),
            p1 == prec_of(o1),
            left == is_left_assoc(o1),
            fused_yield(old(output)@, old(st)@, o1) == fused_yield(output@, st@, o1),
        decreases st@.len(),
    {
        let top = match st.peek() {
            Some(t) => *t,
            None => {
                return Ok(());
            },
        };
        if top == '(' {
            return Ok(());
        }
        assert(is_op_char(top)) by {
            assert(st@[st@.len() - 1] == top);
        };
        let p2 = match Operator::get_precedence(&top) {
            Ok(p) => p,
            Err(e) => {
                return Err(e);
            },
        };
        if p2 > p1 || (p2 == p1 && left) {
            match apply_top(st, output) {
                Ok(()) => {},
                Err(e) => {
                    return Err(e);
                },
            }
        } else {
            return Ok(());
        }
    }
}

/// Evaluates an infix expression such as `"2 ^ 3 ^ 2"` in one pass: the
/// shunting-yard algorithm of `infix_to_rpn`, with a stack of values in
/// place of the output, where each operator leaving the operator stack is
/// applied at once to the two values on top. `^` is a power here
/// (right-associative: `2 ^ 3 ^ 2` is 512). The expression must leave
/// exactly one value.
pub fn sy_evaulate(input: String) -> (r: Result<u32, ExprError>)
    ensures
        r == fused_value(input@),
{
    let tokens = match tokenize(input.as_str()) {
        Ok(t) => t,
        Err(e) => {
            return Err(e);
        },
    };
    let mut st: Stack<char> = Stack::new();
    let mut output: Vec<u32> = Vec::new();
    let n = tokens.len();
    let mut i: usize = 0;
    assert(tokens@.skip(0) =~= tokens@);
    while i < n
        invariant
            n == tokens@.len(),
            i <= n,
            lex(input@) == Ok::<Seq<Tokens>, ExprError>(tokens@),
            ops_ok(st@),
            fused_run(Seq::empty(), Seq::empty(), tokens@) == fused_run(output@, st@, tokens@.skip(i as int)),
        decreases n - i,
    {
        let t = tokens[i];
        assert(tokens@.skip(i as int)[0] == t);
        assert(tokens@.skip(i as int).skip(1) =~= tokens@.skip(i + 1));
        match t {
            Tokens::Number(v) => {
                evaluator_add_to_output(&mut output, v);
            },
            Tokens::ParenLeft => {
                st.push('(');
            },
            Tokens::ParenRight => {
                match fused_close_paren(&mut st, &mut output) {
                    Ok(()) => {},
                    Err(e) => {
                        return Err(e);
                    },
                }
            },
            _ => {
                let c = match t.operator_char() {
                    Some(c) => c,
                    None => {
                        return Err(ExprError::UnsupportedOperator);
                    },
                };
                match fused_yield_to(&mut st, &mut output, c) {
                    Ok(()) => {},
                    Err(e) => {
                        return Err(e);
                    },
                }
                st.push(c);
            },
        }
        i = i + 1;
    }
    assert(tokens@.skip(n as int).len() == 0);
    loop
        invariant
            ops_ok(st@),
            fused_run(Seq::empty(), Seq::empty(), tokens@) == fused_drain(output@, st@),
            lex(input@) == Ok::<Seq<Tokens>, ExprError>(tokens@),
        ensures
            fused_run(Seq::empty(), Seq::empty(), tokens@) == Ok::<Seq<u32>, ExprError>(output@),
            lex(input@) == Ok::<Seq<Tokens>, ExprError>(tokens@),
        decreases st@.len(),
    {
        let top = match st.peek() {
            Some(t) => *t,
            None => {
                break;
            },
        };
        if top == '(' {
            return Err(ExprError::UnbalancedParentheses);
        }
        match apply_top(&mut st, &mut output) {
            Ok(()) => {},
            Err(e) => {
                return Err(e);
            },
        }
    }
    let len = output.len();
    if len == 1 {
        Ok(output[0])
    } else if len == 0 {
        Err(ExprError::StackUnderflow)
    } else {
        Err(ExprError::LeftoverOperands)
    }
}

} // verus!
