//! The object model, the scope stack and the interpreter that runs programs
//! over them.

pub mod ids;
pub mod object;
pub mod path;
pub mod state;
pub mod laws;
pub mod passes;
pub mod instruction;
pub mod names;
pub mod load;
pub mod semantics;
pub mod run;
pub mod quiet;
