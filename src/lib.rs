//! A zero-copy lexical scanner for a Lisp/Scheme-like language.
//!
//! The byte-level grammar is stated as spec functions in [`grammar`]; the
//! executable [`scanner::Scanner`] is proved to follow it step by step, and
//! [`laws`] states what holds of whole scans.
pub mod grammar;
pub mod text;
pub mod scanner;
pub mod laws;
