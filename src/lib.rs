//! Evaluation of arithmetic expressions written as text.
//!
//! The library decides how an expression is taken apart: which parenthesised
//! group is resolved first, at which operator the rest is split, and what is
//! left as a single operand. The numeric work on operands is handed to the
//! caller through [`evaluator::Evaluation`].

pub mod operator;
pub mod text;
pub mod expression;
pub mod evaluator;
pub mod display;
