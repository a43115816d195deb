//! Identifiers and the shared cancellation flag.

use std::sync::atomic::AtomicBool;
use std::sync::atomic::Ordering;
use std::sync::Arc;
use vstd::prelude::*;

verus! {

/// The position of a scope in the scope stack.
#[derive(Debug, Clone, Copy, PartialEq, Eq, PartialOrd, Ord, Structural)]
pub struct StackId(pub usize);

/// The position of an instruction in a program.
#[derive(Debug, Clone, Copy, PartialEq, Eq, PartialOrd, Ord, Structural)]
pub struct InstructionId(pub usize);

/// The interned name of a variable or a field.
#[derive(Debug, Clone, Copy, Hash, PartialEq, Eq, PartialOrd, Ord, Structural)]
pub struct VarNameId(pub usize);

/// A cancellation flag shared between the interpreter and whoever may stop it.
///
/// The flag starts unset and can only ever be set. Another thread may set it
/// at any moment, so nothing is promised about what a read returns.
#[derive(Clone)]
pub struct Shutdown(Arc<AtomicBool>);

impl Shutdown {
    /// A fresh, unset flag.
    pub fn new() -> Self {
        Self(Arc::new(AtomicBool::new(false)))
    }

    /// Sets the flag and returns whether it was already set.
    pub fn shutdown(&self) -> bool {
        self.0.swap(true, Ordering::Relaxed)
    }

    /// Whether the flag has been set.
    pub fn is_shutdown(&self) -> bool {
        self.0.load(Ordering::Relaxed)
    }
}

} // verus!
