//! What each instruction does to the scopes and where it goes next.

use super::ids::VarNameId;
use super::instruction::{Instruction, IterTarget};
use super::object::{Counter, Value, VariableRef};
use super::path::{
    bound_in, find_scope, inserted, resolve, struct_of, Failure, Frames, VarFieldId,
};
use crate::bed::expr::{may_fail, object_value, range_value, IterTargetExpr};
use vstd::prelude::*;

verus! {

/// The number of steps that a loop over `v` takes, if `v` can be stepped
/// over at all: the length of a list, the length of a counter's range.
pub open spec fn iter_len(v: Value) -> Option<nat> {
    match v {
        Value::List(l) => Some(l.len()),
        Value::Counter(c) => Some(c.length() as nat),
        _ => None,
    }
}

/// The scopes after `v` has been appended to the list that is the innermost
/// binding of `target`.
pub open spec fn pushed(frames: Frames, target: VarNameId, v: Value) -> Result<Frames, Failure> {
    match find_scope(frames, target.0) {
        None => Err(Failure::MissingVariable(target)),
        Some(s) => match frames[s][target.0] {
            Value::List(l) => Ok(bound_in(frames, s, target.0, Value::List(l.push(v)))),
            _ => Err(Failure::NotAList),
        },
    }
}

/// The scopes after `target` has been created with the value `v`: in scope
/// `scope` where one is given, which does nothing where there is no such
/// scope, else in the innermost scope.
pub open spec fn created(frames: Frames, target: VarNameId, scope: Option<usize>, v: Value) -> Frames {
    match scope {
        Some(s) => if s < frames.len() {
            bound_in(frames, s as int, target.0, v)
        } else {
            frames
        },
        None => inserted(frames, target.0, v, None),
    }
}

/// The scopes after `v` has been assigned to `target`: to its binding in
/// scope `scope` where one is given, else to its innermost binding. Where
/// there is no such binding nothing changes.
pub open spec fn overwritten(frames: Frames, target: VarNameId, scope: Option<usize>, v: Value) -> Frames {
    match scope {
        Some(s) => if s < frames.len() && frames[s as int].contains_key(target.0) {
            bound_in(frames, s as int, target.0, v)
        } else {
            frames
        },
        None => match find_scope(frames, target.0) {
            Some(s) => bound_in(frames, s, target.0, v),
            None => frames,
        },
    }
}

/// Where a loop over the variable `target` starts: `None` where there is
/// nothing to step over, else the scopes with `iter` bound, in the innermost
/// scope, to a reference to the first step.
pub open spec fn variable_started(frames: Frames, target: VarNameId, iter: VarNameId) -> Result<
    Option<Frames>,
    Failure,
> {
    match find_scope(frames, target.0) {
        None => Err(Failure::MissingVariable(target)),
        Some(s) => match iter_len(frames[s][target.0]) {
            None => Err(Failure::NotAList),
            Some(n) => if n > 0 {
                Ok(
                    Some(
                        inserted(
                            frames,
                            iter.0,
                            Value::Ref(VariableRef { scope: s as usize, target, offset: 0 }),
                            None,
                        ),
                    ),
                )
            } else {
                Ok(None)
            },
        },
    }
}

/// Where a loop over a range starts: `None` where the range is empty, else
/// the scopes with `iter` bound, in the innermost scope, to a counter at
/// the start of the range.
pub open spec fn range_started(frames: Frames, target: IterTargetExpr, iter: VarNameId) -> Result<
    Option<Frames>,
    Failure,
> {
    match target {
        IterTargetExpr::Range { start, end } => match range_value(frames, start) {
            Err(e) => Err(e),
            Ok(a) => match range_value(frames, end) {
                Err(e) => Err(e),
                Ok(b) => if a >= b {
                    Ok(None)
                } else {
                    Ok(
                        Some(
                            inserted(
                                frames,
                                iter.0,
                                Value::Counter(Counter { offset: 0, start: a, end: b }),
                                None,
                            ),
                        ),
                    )
                },
            },
        },
        IterTargetExpr::Variable(_) => Ok(None),
    }
}

/// The offset after one more step, held at `usize::MAX`.
pub open spec fn next_offset(offset: usize) -> usize {
    if offset < usize::MAX {
        (offset + 1) as usize
    } else {
        offset
    }
}

/// One step of a loop over the variable `target`: the scopes with the
/// offset of the reference bound to `iter` advanced by one, and whether the
/// loop is over, which it is when the offset has reached the number of
/// steps.
pub open spec fn variable_advanced(frames: Frames, target: VarNameId, iter: VarNameId) -> Result<
    (Frames, bool),
    Failure,
> {
    match find_scope(frames, target.0) {
        None => Err(Failure::MissingVariable(target)),
        Some(s) => match iter_len(frames[s][target.0]) {
            None => Err(Failure::NotAList),
            Some(n) => match find_scope(frames, iter.0) {
                None => Err(Failure::MissingVariable(iter)),
                Some(i) => match frames[i][iter.0] {
                    Value::Ref(r) => Ok(
                        (
                            bound_in(
                                frames,
                                i,
                                iter.0,
                                Value::Ref(
                                    VariableRef {
                                        scope: r.scope,
                                        target: r.target,
                                        offset: next_offset(r.offset),
                                    },
                                ),
                            ),
                            r.offset + 1 >= n,
                        ),
                    ),
                    _ => Err(Failure::NotARef),
                },
            },
        },
    }
}

/// One step of a loop over a range: the scopes with the offset of the
/// counter bound to `iter` advanced by one, and whether the loop is over,
/// which it is when the counter has reached the end of its range.
pub open spec fn range_advanced(frames: Frames, iter: VarNameId) -> Result<(Frames, bool), Failure> {
    match find_scope(frames, iter.0) {
        None => Err(Failure::MissingVariable(iter)),
        Some(i) => match frames[i][iter.0] {
            Value::Counter(c) => Ok(
                (
                    bound_in(
                        frames,
                        i,
                        iter.0,
                        Value::Counter(
                            Counter { offset: next_offset(c.offset), start: c.start, end: c.end },
                        ),
                    ),
                    c.start + c.offset + 1 >= c.end,
                ),
            ),
            _ => Err(Failure::NotARef),
        },
    }
}

/// Whether a guard skips its block: it does unless `cond` names a struct, or
/// a reference to one, whose base is exactly `false`.
pub open spec fn guard_skips(frames: Frames, cond: VarFieldId) -> Result<bool, Failure> {
    match resolve(frames, cond) {
        Err(e) => Err(e),
        Ok(v) => match struct_of(frames, v) {
            Err(e) => Err(e),
            Ok(rec) => Ok(rec.base != "false"@),
        },
    }
}

/// Whether the instruction leaves its work to the executor: what it does to
/// the scopes is then for the executor to say.
pub open spec fn is_delegated<T>(i: Instruction<T>) -> bool {
    i is Command || i is LoadVar || i is Print
}

/// The instruction after `counter`.
pub open spec fn after(counter: usize) -> usize {
    (counter + 1) as usize
}

/// What an instruction that is not left to the executor does when it
/// succeeds: the scopes after it and the instruction to go on with.
pub open spec fn stepped<T>(i: Instruction<T>, frames: Frames, counter: usize) -> Option<
    (Frames, usize),
> {
    match i {
        Instruction::PushScope => Some((frames.push(Map::empty()), after(counter))),
        Instruction::PopScope => Some(
            (
                if frames.len() > 0 {
                    frames.drop_last()
                } else {
                    frames
                },
                after(counter),
            ),
        ),
        Instruction::PushList { target, object } => match object_value(frames, object) {
            None => None,
            Some(v) => match pushed(frames, target, v) {
                Ok(f) => Some((f, after(counter))),
                Err(_) => None,
            },
        },
        Instruction::CreateVar { target, scope, value } => match object_value(frames, value) {
            None => None,
            Some(v) => Some((created(frames, target, scope, v), after(counter))),
        },
        Instruction::AssignVar { target, scope, value } => match object_value(frames, value) {
            None => None,
            Some(v) => Some((overwritten(frames, target, scope, v), after(counter))),
        },
        Instruction::StartIter { target: IterTargetExpr::Variable(target), iter, jump } => {
            match variable_started(frames, target, iter) {
                Ok(Some(f)) => Some((f, after(counter))),
                Ok(None) => Some((frames, jump.0)),
                Err(_) => None,
            }
        },
        Instruction::StartIter { target, iter, jump } => match range_started(frames, target, iter) {
            Ok(Some(f)) => Some((f, after(counter))),
            Ok(None) => Some((frames, jump.0)),
            Err(_) => None,
        },
        Instruction::Increment { target: IterTarget::Variable(target), iter, jump } => {
            match variable_advanced(frames, target, iter) {
                Ok((f, over)) => Some(
                    (
                        f,
                        if over {
                            jump.0
                        } else {
                            after(counter)
                        },
                    ),
                ),
                Err(_) => None,
            }
        },
        Instruction::Increment { target: IterTarget::Range, iter, jump } => {
            match range_advanced(frames, iter) {
                Ok((f, over)) => Some(
                    (
                        f,
                        if over {
                            jump.0
                        } else {
                            after(counter)
                        },
                    ),
                ),
                Err(_) => None,
            }
        },
        Instruction::ConditionalJump { cond, jump } => match guard_skips(frames, cond) {
            Ok(skips) => Some(
                (
                    frames,
                    if skips {
                        jump.0
                    } else {
                        after(counter)
                    },
                ),
            ),
            Err(_) => None,
        },
        Instruction::Goto(target) => Some((frames, target.0)),
        Instruction::Print(_) => None,
        Instruction::LoadVar { .. } => None,
        Instruction::Command(_) => None,
    }
}

/// Whether `f` is a failure that an instruction which is not left to the
/// executor may report.
pub open spec fn step_may_fail<T>(i: Instruction<T>, frames: Frames, f: Failure) -> bool {
    match i {
        Instruction::PushList { target, object } => match object_value(frames, object) {
            None => may_fail(frames, object, f),
            Some(v) => pushed(frames, target, v) == Err::<Frames, Failure>(f),
        },
        Instruction::CreateVar { target, scope, value } => may_fail(frames, value, f),
        Instruction::AssignVar { target, scope, value } => may_fail(frames, value, f),
        Instruction::StartIter { target: IterTargetExpr::Variable(target), iter, jump } => {
            variable_started(frames, target, iter) == Err::<Option<Frames>, Failure>(f)
        },
        Instruction::StartIter { target, iter, jump } => range_started(frames, target, iter)
            == Err::<Option<Frames>, Failure>(f),
        Instruction::Increment { target: IterTarget::Variable(target), iter, jump } => {
            variable_advanced(frames, target, iter) == Err::<(Frames, bool), Failure>(f)
        },
        Instruction::Increment { target: IterTarget::Range, iter, jump } => range_advanced(
            frames,
            iter,
        ) == Err::<(Frames, bool), Failure>(f),
        Instruction::ConditionalJump { cond, jump } => guard_skips(frames, cond) == Err::<
            bool,
            Failure,
        >(f),
        _ => false,
    }
}

/// Whether none of the instructions is left to the executor.
pub open spec fn is_plain<T>(code: Seq<Instruction<T>>) -> bool {
    forall|i: int| 0 <= i < code.len() ==> !is_delegated(#[trigger] code[i])
}

/// The scopes and the counter after `steps` instructions have been run one
/// after the other from `counter`, each with success; `None` where one of
/// them fails, is left to the executor, or would lie past the end.
///
/// Opaque, so that a proof unfolds no more steps than it asks for: reveal
/// it with as much fuel as there are steps to compute, or go step by step
/// with [`crate::program::passes::lemma_ran_next`].
#[verifier::opaque]
pub open spec fn ran<T>(code: Seq<Instruction<T>>, frames: Frames, counter: usize, steps: nat) -> Option<
    (Frames, usize),
>
    decreases steps,
{
    if steps == 0 {
        Some((frames, counter))
    } else {
        match ran(code, frames, counter, (steps - 1) as nat) {
            None => None,
            Some((f, c)) => if c < code.len() {
                stepped(code[c as int], f, c)
            } else {
                None
            },
        }
    }
}

} // verus!
