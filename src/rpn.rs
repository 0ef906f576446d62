use vstd::prelude::*;
use crate::arith::{apply_rpn, basic_op};
use crate::error::ExprError;
use crate::stack::Stack;
use crate::tokenizer::{lex, op_char_of, tokenize, Tokens};

verus! {

/// One token applied to the operand stack `st` (top last): a number is
/// pushed; an operator takes the top as its right operand and the value below
/// it as its left one, and pushes the result.
pub open spec fn rpn_step(st: Seq<u32>, t: Tokens) -> Result<Seq<u32>, ExprError> {
    match t {
        Tokens::Number(v) => Ok(st.push(v)),
        _ => match op_char_of(t) {
            None => Err(ExprError::UnsupportedOperator),
            Some(c) => if st.len() < 2 {
                Err(ExprError::StackUnderflow)
            } else {
                match apply_rpn(c, st[st.len() - 2], st[st.len() - 1]) {
                    Ok(x) => Ok(st.drop_last().drop_last().push(x)),
                    Err(e) => Err(e),
                }
            },
        },
    }
}

/// The operand stack after the tokens `ts`, one by one, starting from `st`;
/// the first failing step is the error.
pub open spec fn rpn_run(st: Seq<u32>, ts: Seq<Tokens>) -> Result<Seq<u32>, ExprError>
    decreases ts.len(),
{
    if ts.len() == 0 {
        Ok(st)
    } else {
        match rpn_step(st, ts[0]) {
            Ok(s2) => rpn_run(s2, ts.skip(1)),
            Err(e) => Err(e),
        }
    }
}

/// The single value on a final stack; an empty stack underflows, more than
/// one value is left over.
pub open spec fn sole_value(r: Result<Seq<u32>, ExprError>) -> Result<u32, ExprError> {
    match r {
        Ok(st) => if st.len() == 1 {
            Ok(st[0])
        } else if st.len() == 0 {
            Err(ExprError::StackUnderflow)
        } else {
            Err(ExprError::LeftoverOperands)
        },
        Err(e) => Err(e),
    }
}

/// The value of the postfix token sequence `ts`.
pub open spec fn rpn_tokens_value(ts: Seq<Tokens>) -> Result<u32, ExprError> {
    sole_value(rpn_run(Seq::empty(), ts))
}

/// The value of the postfix text `s`, `^` read as XOR.
pub open spec fn rpn_value(s: Seq<char>) -> Result<u32, ExprError> {
    match lex(s) {
        Ok(ts) => rpn_tokens_value(ts),
        Err(e) => Err(e),
    }
}

/// The result of one operator of the postfix evaluator; see `apply_rpn`.
fn rpn_op(op: char, left: u32, right: u32) -> (r: Result<u32, ExprError>)
    ensures
        r == apply_rpn(op, left, right),
{
    if op == '^' {
        Ok(left ^ right)
    } else {
        basic_op(op, left, right)
    }
}

/// Evaluates a postfix expression such as `"11 22 +"`. Numbers go on an
/// operand stack; each operator takes the two values on top (the upper one
/// is its right operand) and puts back its result. `^` is bitwise XOR here.
/// The expression must leave exactly one value.
pub fn evaluate_rpn(input: String) -> (r: Result<u32, ExprError>)
    ensures
        r == rpn_value(input@),
{
    let tokens = match tokenize(input.as_str()) {
        Ok(t) => t,
        Err(e) => {
            return Err(e);
        },
    };
    let mut st: Stack<u32> = Stack::new();
    let n = tokens.len();
    let mut i: usize = 0;
    assert(tokens@.skip(0) =~= tokens@);
    while i < n
        invariant
            n == tokens@.len(),
            i <= n,
            lex(input@) == Ok::<Seq<Tokens>, ExprError>(tokens@),
            rpn_run(Seq::empty(), tokens@) == rpn_run(st@, tokens@.skip(i as int)),
        decreases n - i,
    {
        let t = tokens[i];
        let ghost before = st@;
        assert(tokens@.skip(i as int)[0] == t);
        assert(tokens@.skip(i as int).skip(1) =~= tokens@.skip(i + 1));
        match t {
            Tokens::Number(v) => {
                st.push(v);
            },
            _ => {
                let op = match t.operator_char() {
                    Some(c) => c,
                    None => {
                        return Err(ExprError::UnsupportedOperator);
                    },
                };
                let right = match st.pop() {
                    Ok(x) => x,
                    Err(e) => {
                        return Err(e);
                    },
                };
                let left = match st.pop() {
                    Ok(x) => x,
                    Err(e) => {
                        return Err(e);
                    },
                };
                match rpn_op(op, left, right) {
                    Ok(x) => {
                        st.push(x);
                    },
                    Err(e) => {
                        return Err(e);
                    },
                }
            },
        }
        assert(rpn_step(before, t) == Ok::<Seq<u32>, ExprError>(st@));
        i = i + 1;
    }
    assert(tokens@.skip(n as int).len() == 0);
    let len = st.len();
    if len == 1 {
        match st.pop() {
            Ok(x) => Ok(x),
            Err(e) => Err(e),
        }
    } else if len == 0 {
        Err(ExprError::StackUnderflow)
    } else {
        Err(ExprError::LeftoverOperands)
    }
}

} // verus!
