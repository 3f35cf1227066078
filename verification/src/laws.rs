//! What the parts of the engine do, said of their inputs and results alone.

pub mod account;
pub mod book_walk;
pub mod decisions;
pub mod exchange;
pub mod files;
pub mod levels;
pub mod market;
pub mod numbers;
pub mod operations;
pub mod patterns;
pub mod program;
pub mod registry;
pub mod replay;
pub mod results;
pub mod sizing;
pub mod texts;
