//! Concrete problems for the engine.
pub mod my_strategy;
pub mod nim_strategy;
