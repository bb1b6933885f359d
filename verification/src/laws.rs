//! Laws of the grammar: what holds of every parse.

pub mod context;
pub mod precedence;
pub mod progress;
pub mod sentence;
pub mod shape;
pub mod spelling;
pub mod text;
