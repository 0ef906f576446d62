use vstd::prelude::*;
use vstd::arithmetic::power::{pow, lemma0_pow, lemma1_pow, lemma_pow_increases};
use crate::error::ExprError;

verus! {

/// `left op right` for `+ - * /` over `u32`, failing where the exact result
/// leaves the range of `u32` or the divisor is zero. Any other `op` is
/// unsupported.
pub open spec fn apply_basic(op: char, left: u32, right: u32) -> Result<u32, ExprError> {
    if op == '+' {
        if left + right > u32::MAX {
            Err(ExprError::ArithmeticOverflow)
        } else {
            Ok((left + right) as u32)
        }
    } else if op == '-' {
        if left < right {
            Err(ExprError::ArithmeticOverflow)
        } else {
            Ok((left - right) as u32)
        }
    } else if op == '*' {
        if left * right > u32::MAX {
            Err(ExprError::ArithmeticOverflow)
        } else {
            Ok((left * right) as u32)
        }
    } else if op == '/' {
        if right == 0 {
            Err(ExprError::DivisionByZero)
        } else {
            Ok((left / right) as u32)
        }
    } else {
        Err(ExprError::UnsupportedOperator)
    }
}

/// The postfix evaluator's reading of an operator: `^` is bitwise XOR.
pub open spec fn apply_rpn(op: char, left: u32, right: u32) -> Result<u32, ExprError> {
    if op == '^' {
        Ok(left ^ right)
    } else {
        apply_basic(op, left, right)
    }
}

/// The fused evaluator's reading of an operator: `^` raises `left` to the
/// power `right`, failing where that leaves the range of `u32`.
pub open spec fn apply_fused(op: char, left: u32, right: u32) -> Result<u32, ExprError> {
    if op == '^' {
        if pow(left as int, right as nat) > u32::MAX {
            Err(ExprError::ArithmeticOverflow)
        } else {
            Ok(pow(left as int, right as nat) as u32)
        }
    } else {
        apply_basic(op, left, right)
    }
}

/// `left op right` for `+ - * /`; see `apply_basic`.
pub fn basic_op(op: char, left: u32, right: u32) -> (r: Result<u32, ExprError>)
    ensures
        r == apply_basic(op, left, right),
{
    match op {
        '+' => match left.checked_add(right) {
            Some(v) => Ok(v),
            None => Err(ExprError::ArithmeticOverflow),
        },
        '-' => match left.checked_sub(right) {
            Some(v) => Ok(v),
            None => Err(ExprError::ArithmeticOverflow),
        },
        '*' => match left.checked_mul(right) {
            Some(v) => Ok(v),
            None => Err(ExprError::ArithmeticOverflow),
        },
        '/' => {
            if right == 0 {
                Err(ExprError::DivisionByZero)
            } else {
                Ok(left / right)
            }
        },
        _ => Err(ExprError::UnsupportedOperator),
    }
}

/// `base` to the power `exp`, or `None` where that exceeds `u32::MAX`.
pub fn checked_power(base: u32, exp: u32) -> (r: Option<u32>)
    ensures
        pow(base as int, exp as nat) <= u32::MAX ==> r == Some(pow(base as int, exp as nat) as u32),
        pow(base as int, exp as nat) > u32::MAX ==> r is None,
{
    reveal(pow);
    if base == 0 {
        if exp == 0 {
            return Some(1);
        } else {
            proof {
                lemma0_pow(exp as nat);
            }
            return Some(0);
        }
    }
    if base == 1 {
        proof {
            lemma1_pow(exp as nat);
        }
        return Some(1);
    }
    // With a base of two or more the product leaves `u32` within 32 rounds.
    let mut acc: u32 = 1;
    let mut k: u32 = 0;
    while k < exp
        invariant
            k <= exp,
            base >= 2,
            acc == pow(base as int, k as nat),
        decreases exp - k,
    {
        proof {
            reveal(pow);
            assert(pow(base as int, (k + 1) as nat) == base * pow(base as int, k as nat));
            assert(base * pow(base as int, k as nat) == acc * base) by (nonlinear_arith)
                requires acc == pow(base as int, k as nat);
        }
        match acc.checked_mul(base) {
            Some(v) => {
                acc = v;
            },
            None => {
                proof {
                    lemma_pow_increases(base as nat, (k + 1) as nat, exp as nat);
                }
                return None;
            },
        }
        k = k + 1;
    }
    Some(acc)
}

} // verus!
