//! Build scripts for continuous-integration jobs.
//!
//! A job is described as a tree of statements ([`ast`]). The tree is
//! rendered to shell text ([`bash`]), or run against an in-memory
//! environment that records what the script would do
//! ([`test_ast_runner`]). The steps of a job come from its description
//! ([`payload`]) by way of [`components`] and [`script`].

pub mod ast;
pub mod bash;
pub mod components;
pub mod json;
pub mod languages;
pub mod path;
pub mod payload;
pub mod script;
pub mod test_ast_runner;
pub mod text;

pub use payload::Payload;
pub use script::Script;
