//! A small language for driving parameterised test and benchmark runs.
//!
//! A script binds variables, loops over them and starts processes. This
//! crate holds what a script means:
//!
//! - [`program`]: the runtime values, the scope stack with its references
//!   and paths, the instructions and the interpreter that runs them;
//! - [`bed`]: the expressions and commands that instructions are made of,
//!   and the decisions of the process supervisor: where a process stands in
//!   its life, when it may start and how long it is waited for, and what is
//!   shown of it and of the loops around it;
//! - [`parser`]: the compiler from structured loops and guarded blocks to
//!   flat instructions;
//! - [`commands`] and [`stack`]: the line-oriented language of test
//!   commands, and the loops such a command runs in;
//! - [`text`]: decimal numerals.
//!
//! Starting processes, reading their streams, rendering templates and
//! drawing on the terminal are left to the caller, which implements
//! [`program::run::Executable`].

pub mod text;
pub mod program;
pub mod bed;
pub mod parser;
pub mod commands;
pub mod stack;
