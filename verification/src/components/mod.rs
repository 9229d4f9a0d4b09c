//! The steps that every build takes, whatever its language.

pub mod git;
pub mod services;
