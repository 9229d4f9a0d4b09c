//! What a language adds to the script of a job.

use vstd::prelude::*;
use crate::ast::{Statement, StatementView};
use crate::payload::Payload;
use crate::text::same_text;

verus! {

/// The steps of a language, stage by stage. A language gives the stages
/// that it needs; each of the others does nothing.
pub trait Language {
    /// Prepares the machine for the language.
    fn setup(&self) -> (steps: Statement)
        default_ensures
            steps@ == StatementView::Noop,
    {
        Statement::Noop
    }

    /// Says which version of the language is at work.
    fn announce(&self) -> (steps: Statement)
        default_ensures
            steps@ == StatementView::Noop,
    {
        Statement::Noop
    }

    /// Fetches what the build depends on.
    fn install(&self) -> (steps: Statement)
        default_ensures
            steps@ == StatementView::Noop,
    {
        Statement::Noop
    }

    /// Builds and tests.
    fn script(&self) -> (steps: Statement)
        default_ensures
            steps@ == StatementView::Noop,
    {
        Statement::Noop
    }
}

/// The language Rust. It has no steps of its own yet.
#[derive(Debug, Clone, Copy, PartialEq, Eq, Structural)]
pub struct Rust {}

impl Language for Rust {}

/// The language of a job, where it is one that has steps here.
pub fn for_payload(payload: &Payload) -> (language: Option<Rust>)
    ensures
        language is Some <==> payload@.config.language == "rust"@,
{
    if same_text(payload.config.language.as_str(), "rust") {
        Some(Rust {})
    } else {
        None
    }
}

} // verus!
