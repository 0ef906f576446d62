use vstd::prelude::*;

verus! {

/// The ways in which tokenizing, converting or evaluating an expression fails.
#[derive(Debug, Clone, Copy, PartialEq, Eq, Structural)]
pub enum ExprError {
    /// A value or an operator was taken from an empty stack.
    StackUnderflow,
    /// A precedence, an associativity or an evaluation was asked of a
    /// character or token that is not one of `+ - * / ^`.
    UnsupportedOperator,
    /// The tokenizer met a character outside its alphabet.
    UnexpectedCharacter(char),
    /// A `(` was never closed.
    UnbalancedParentheses,
    /// A run of digits does not fit in a `u32`.
    NumericOverflow,
    /// An operation's result does not fit in a `u32` (this includes a
    /// subtraction that would go below zero).
    ArithmeticOverflow,
    /// A division had zero as its right operand.
    DivisionByZero,
    /// An evaluation ended with more than one value on its stack.
    LeftoverOperands,
}

} // verus!
