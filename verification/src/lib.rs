//! A lint rule that flags invocations of a general-purpose assertion macro and
//! recommends the contract-specific replacement.

pub mod config;
pub mod delimiter;
pub mod diagnostic;
pub mod matcher;
pub mod resolution;
pub mod rule;
pub mod span;
pub mod syntax;
