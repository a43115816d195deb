//! The instructions that programs are made of.

use super::ids::{InstructionId, VarNameId};
use super::path::VarFieldId;
use crate::bed::expr::{IterTargetExpr, ObjectExpr, StringExpr};
use vstd::prelude::*;

verus! {

/// What a loop steps over: the variable of that name, or a range that the
/// loop variable itself counts through.
#[derive(Clone, Copy, Debug)]
pub enum IterTarget {
    Variable(VarNameId),
    Range,
}

/// One instruction of a program, `T` being what the program is run for: the
/// commands that only its executor understands.
#[allow(inconsistent_fields)]
#[derive(Debug)]
pub enum Instruction<T> {
    PushScope,
    PopScope,
    Print(VarFieldId),
    PushList { target: VarNameId, object: ObjectExpr },
    CreateVar { target: VarNameId, scope: Option<usize>, value: ObjectExpr },
    AssignVar { target: VarNameId, scope: Option<usize>, value: ObjectExpr },
    LoadVar { target: VarNameId, path: StringExpr },
    StartIter {
        /// What is stepped over.
        target: IterTargetExpr,
        /// The variable that stands for the current step inside the loop.
        iter: VarNameId,
        jump: InstructionId,
    },
    Increment { target: IterTarget, iter: VarNameId, jump: InstructionId },
    ConditionalJump { cond: VarFieldId, jump: InstructionId },
    Goto(InstructionId),
    Command(T),
}

/// A flat sequence of instructions, run from the first.
#[derive(Debug)]
pub struct Program<T>(pub Vec<Instruction<T>>);

} // verus!
