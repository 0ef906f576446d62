//! Infix and postfix arithmetic: a tokenizer, the shunting-yard conversion
//! from infix to reverse Polish notation, a postfix evaluator, and an
//! evaluator that runs the shunting-yard control flow and computes as it goes.
pub mod error;
pub mod stack;
pub mod operator;
mod text;
pub mod arith;
pub mod tokenizer;
pub mod rpn;
pub mod shunting;
pub mod fused;
pub mod laws;
pub mod syntax;

pub use error::ExprError;
pub use fused::sy_evaulate;
pub use rpn::evaluate_rpn;
pub use shunting::infix_to_rpn;
pub use tokenizer::{tokenize, Tokenizer, Tokens};
