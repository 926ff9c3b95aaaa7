//! Core of a minimal line-oriented command interpreter.
//!
//! A raw input line is parsed into a [`ast::Command`] value describing a
//! single program invocation or a pipeline of invocations, optionally with
//! the final standard output redirected to a file.  The executor module turns
//! such a value into an explicit launch plan (which process reads from which
//! pipe, which writes where) and aggregates the per-stage outcomes into one
//! result.  Everything here is pure: the surrounding driver performs the
//! actual process creation and feeds the observed outcomes back in.

pub mod ast;
pub mod executor;
pub mod parser;
