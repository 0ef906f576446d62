use vstd::prelude::*;
use crate::error::ExprError;

verus! {

/// How operators of equal precedence group.
#[derive(Debug, Clone, Copy, PartialEq, Eq, Structural)]
pub enum Associativity {
    Left,
    Right,
}

/// The five binary operators.
pub open spec fn is_op_char(c: char) -> bool {
    c == '+' || c == '-' || c == '*' || c == '/' || c == '^'
}

/// Precedence rank: `+ -` bind loosest, then `* /`, then `^`.
pub open spec fn prec_of(c: char) -> int {
    if c == '+' || c == '-' {
        2
    } else if c == '*' || c == '/' {
        3
    } else {
        4
    }
}

/// All operators but `^` are left-associative.
pub open spec fn is_left_assoc(c: char) -> bool {
    c != '^'
}

/// Whether an incoming operator `o1` sends the operator `top` on the stack
/// to the output before it is pushed itself.
pub open spec fn yields_to(top: char, o1: char) -> bool {
    top != '(' && (prec_of(top) > prec_of(o1) || (prec_of(top) == prec_of(o1) && is_left_assoc(o1)))
}

/// The fixed table of operator precedence and associativity.
pub struct Operator;

impl Operator {
    /// Whether `op` is one of `+ - / * ^`.
    pub fn is_valid(op: char) -> (r: bool)
        ensures
            r == is_op_char(op),
    {
        match op {
            '+' | '-' | '/' | '*' | '^' => true,
            _ => false,
        }
    }

    /// `Right` for `^`, `Left` for the other operators.
    pub fn get_associativity(op: char) -> (r: Result<Associativity, ExprError>)
        ensures
            !is_op_char(op) ==> r == Err::<Associativity, ExprError>(ExprError::UnsupportedOperator),
            is_op_char(op) && is_left_assoc(op) ==> r == Ok::<Associativity, ExprError>(Associativity::Left),
            is_op_char(op) && !is_left_assoc(op) ==> r == Ok::<Associativity, ExprError>(Associativity::Right),
    {
        match op {
            '+' | '-' | '/' | '*' => Ok(Associativity::Left),
            '^' => Ok(Associativity::Right),
            _ => Err(ExprError::UnsupportedOperator),
        }
    }

    /// 2 for `+ -`, 3 for `* /`, 4 for `^`.
    pub fn get_precedence(op: &char) -> (r: Result<u8, ExprError>)
        ensures
            !is_op_char(*op) ==> r == Err::<u8, ExprError>(ExprError::UnsupportedOperator),
            is_op_char(*op) ==> (r matches Ok(p) && p == prec_of(*op)),
    {
        match op {
            '+' | '-' => Ok(2),
            '/' | '*' => Ok(3),
            '^' => Ok(4),
            _ => Err(ExprError::UnsupportedOperator),
        }
    }
}

} // verus!
