//! What programs are made of besides instructions: expressions, commands,
//! and the decisions of the process supervisor.

pub mod expr;
pub mod commands;
pub mod process;
pub mod templates;
pub mod bar;
pub mod stream;
pub mod iters;
pub mod timeout;
pub mod supervisor;
