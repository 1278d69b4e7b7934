//! A solver for the 24 game: given four integers, find every way to combine
//! them with `+`, `-`, `x` and `/` so that the result is exactly 24, and
//! print each distinct solution as a readable infix expression.

pub mod arith;
pub mod lazycal;
pub mod eval;
pub mod decimal;
pub mod token;
pub mod solve;
