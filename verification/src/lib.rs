//! Suggests documentation comments for Rust functions: it walks a source
//! tree, extracts each top-level function together with any documentation
//! lines already attached to it, builds a prompt around the function's
//! source text, and hands that prompt to a local language-model backend.
//!
//! The crate is organised around plain values: the directory tree, the
//! extracted functions and the prompts are all ordinary data, so the walk,
//! the extraction bookkeeping and the prompt templating are verified; only
//! the parser and the inference backend are called through trusted wrappers.

pub mod text;
pub mod walk;
pub mod extract;
pub mod prompt;
pub mod cli;
pub mod infer;
