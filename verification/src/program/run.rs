//! The interpreter: one instruction at a time, and a whole program.

use super::ids::{Shutdown, VarNameId};
use super::instruction::{Instruction, IterTarget, Program};
use super::load::ObjectDeserialize;
use super::names::VarNames;
use super::object::{
    lemma_list_push, lemma_list_view, Counter, Object, Value, VariableRef,
};
use super::path::{
    inserted, resolve, Failure, Frames, VarFieldId, VariableAccessError,
};
use super::semantics::{
    after, created, guard_skips, is_delegated, is_plain, iter_len, overwritten,
    pushed, ran, range_advanced, range_started, step_may_fail, stepped, variable_advanced,
    variable_started,
};
use super::state::ProgramState;
use crate::bed::expr::{
    string_value, IterTargetExpr, RangeExpr,
    };
use crate::text::str_eq;
use vstd::prelude::*;

verus! {

/// What runs the commands of a program, and is told of what else happens
/// while the program runs.
pub trait Executable<Command> {
    /// Called once when the run is cancelled.
    fn shutdown(&mut self);

    /// Called once when the program has run to its end.
    fn finish(&mut self, state: &mut ProgramState, shutdown: &Shutdown);

    /// The table in which the names of loaded objects are interned.
    fn var_names_mut(&mut self) -> &mut VarNames;

    /// Runs one command.
    fn execute(&mut self, command: &Command, state: &mut ProgramState, shutdown: &Shutdown) -> Result<
        (),
        VariableAccessError,
    >;

    /// Told of every step of every loop: the loop variable, the offset
    /// reached and what is stepped over.
    fn set_iter(&mut self, iter_var: VarNameId, idx: usize, variable: &Object) {
    }

    /// Shows an object.
    fn print(&self, program: &ProgramState, object: &Object);

    /// Reads the object literal in the file at `path`; `None` where the file
    /// cannot be opened.
    fn load(&mut self, path: &str) -> Option<ObjectDeserialize>;
}

/// How a run ended.
#[derive(Clone, Copy, Debug, PartialEq, Eq, Structural)]
pub enum RunEnd {
    /// The counter passed the last instruction.
    Finished,
    /// The cancellation flag was found set.
    Cancelled,
    /// The steps allowed were used up; the instruction to go on with.
    Paused(usize),
}

/// The number of steps of a loop over `object`, if it can be stepped over.
fn steps_of(object: &Object) -> (r: Option<usize>)
    ensures
        match r {
            Some(n) => iter_len(object@) == Some(n as nat),
            None => iter_len(object@) is None,
        },
{
    match object {
        Object::List(vec) => {
            proof {
                lemma_list_view(*vec);
            }
            Some(vec.len())
        },
        Object::Counter(counter) => Some(counter.len()),
        _ => None,
    }
}

/// What a frames value, or the failure to make one, holds.
pub open spec fn unit_outcome(r: Result<(), VariableAccessError>) -> Option<Failure> {
    match r {
        Ok(()) => None,
        Err(e) => Some(e@),
    }
}

/// Appends `object` to the list that is the innermost binding of `target`.
pub fn push_list(state: &mut ProgramState, target: VarNameId, object: Object) -> (r: Result<
    (),
    VariableAccessError,
>)
    ensures
        match r {
            Ok(()) => pushed(old(state)@, target, object@) is Ok && final(state)@ =~~= pushed(
                old(state)@,
                target,
                object@,
            )->Ok_0,
            Err(e) => pushed(old(state)@, target, object@) == Err::<Frames, Failure>(e@)
                && final(state)@ == old(state)@,
        },
{
    match state.get_value(target) {
        None => {
            return Err(VariableAccessError::MissingVariable(target));
        },
        Some((_, Object::List(_))) => {},
        Some(_) => {
            return Err(VariableAccessError::NotAList);
        },
    }
    match state.get_value_mut(target) {
        Some(Object::List(list)) => {
            let ghost before = *list;
            list.push(object);
            proof {
                lemma_list_view(before);
                lemma_list_view(*list);
                lemma_list_push(before@, object);
            }
            Ok(())
        },
        _ => {
            assert(false);
            Ok(())
        },
    }
}

/// Creates `target` with the value `object`, in scope `scope` where one is
/// given and exists, else in the innermost scope.
pub fn create_var(state: &mut ProgramState, target: VarNameId, scope: Option<usize>, object: Object)
    ensures
        final(state)@ =~~= created(old(state)@, target, scope, object@),
{
    match scope {
        Some(scope) => {
            state.insert_local(scope, target, object);
        },
        None => {
            state.insert_var(target, object, None);
        },
    }
}

/// Assigns `object` to the binding of `target` in scope `scope`, or to its
/// innermost binding where no scope is given. Nothing changes where there
/// is no such binding.
pub fn assign_var(state: &mut ProgramState, target: VarNameId, scope: Option<usize>, object: Object)
    ensures
        final(state)@ =~~= overwritten(old(state)@, target, scope, object@),
{
    match scope {
        Some(scope) => {
            match state.local_mut(scope, target) {
                Some(variable) => {
                    *variable = object;
                },
                None => {},
            }
        },
        None => {
            match state.get_value_mut(target) {
                Some(variable) => {
                    *variable = object;
                },
                None => {},
            }
        },
    }
}

/// Starts a loop over the variable `target`: where it has steps, binds
/// `iter` to a reference to the first and says so.
pub fn start_variable<T, E: Executable<T>>(
    state: &mut ProgramState,
    executable: &mut E,
    target: VarNameId,
    iter: VarNameId,
) -> (r: Result<bool, VariableAccessError>)
    ensures
        match r {
            Ok(true) => variable_started(old(state)@, target, iter) matches Ok(Some(f))
                && final(state)@ =~~= f,
            Ok(false) => variable_started(old(state)@, target, iter) == Ok::<
                Option<Frames>,
                Failure,
            >(None) && final(state)@ == old(state)@,
            Err(e) => variable_started(old(state)@, target, iter) == Err::<Option<Frames>, Failure>(
                e@,
            ) && final(state)@ == old(state)@,
        },
{
    let scope: usize = match state.get_value(target) {
        None => {
            return Err(VariableAccessError::MissingVariable(target));
        },
        Some((scope, object)) => {
            match steps_of(object) {
                None => {
                    return Err(VariableAccessError::NotAList);
                },
                Some(len) => {
                    if len == 0 {
                        return Ok(false);
                    }
                    executable.set_iter(iter, 0, object);
                    scope
                },
            }
        },
    };
    state.insert_var(iter, Object::Ref(VariableRef { scope, target, offset: 0 }), None);
    Ok(true)
}

/// Starts a loop over the range from `start` to `end`: where it is not
/// empty, binds `iter` to a counter at its start and says so.
pub fn start_range<T, E: Executable<T>>(
    state: &mut ProgramState,
    executable: &mut E,
    start: &RangeExpr,
    end: &RangeExpr,
    iter: VarNameId,
) -> (r: Result<bool, VariableAccessError>)
    ensures
        match r {
            Ok(true) => range_started(
                old(state)@,
                IterTargetExpr::Range { start: *start, end: *end },
                iter,
            ) matches Ok(Some(f)) && final(state)@ =~~= f,
            Ok(false) => range_started(
                old(state)@,
                IterTargetExpr::Range { start: *start, end: *end },
                iter,
            ) == Ok::<Option<Frames>, Failure>(None) && final(state)@ == old(state)@,
            Err(e) => range_started(
                old(state)@,
                IterTargetExpr::Range { start: *start, end: *end },
                iter,
            ) == Err::<Option<Frames>, Failure>(e@) && final(state)@ == old(state)@,
        },
{
    let start = match start.evaluate(state) {
        Ok(v) => v,
        Err(e) => {
            return Err(e);
        },
    };
    let end = match end.evaluate(state) {
        Ok(v) => v,
        Err(e) => {
            return Err(e);
        },
    };
    if start >= end {
        return Ok(false);
    }
    let var = state.insert_var(iter, Object::Counter(Counter { offset: 0, start, end }), None);
    executable.set_iter(iter, 0, var);
    Ok(true)
}

/// Takes one step of a loop over the variable `target`, and says whether
/// the loop is over.
pub fn advance_variable<T, E: Executable<T>>(
    state: &mut ProgramState,
    executable: &mut E,
    target: VarNameId,
    iter: VarNameId,
) -> (r: Result<bool, VariableAccessError>)
    ensures
        match r {
            Ok(over) => variable_advanced(old(state)@, target, iter) matches Ok(x) && x.1 == over
                && final(state)@ =~~= x.0,
            Err(e) => variable_advanced(old(state)@, target, iter) == Err::<
                (Frames, bool),
                Failure,
            >(e@) && final(state)@ == old(state)@,
        },
{
    let len: usize = match state.get_value(target) {
        None => {
            return Err(VariableAccessError::MissingVariable(target));
        },
        Some((_, object)) => match steps_of(object) {
            None => {
                return Err(VariableAccessError::NotAList);
            },
            Some(len) => len,
        },
    };
    match state.get_value(iter) {
        None => {
            return Err(VariableAccessError::MissingVariable(iter));
        },
        Some((_, Object::Ref(_))) => {},
        Some(_) => {
            return Err(VariableAccessError::NotARef);
        },
    }
    let (offset, over): (usize, bool) = match state.get_value_mut(iter) {
        Some(Object::Ref(iter_var)) => {
            let over: bool = iter_var.offset == usize::MAX || iter_var.offset + 1 >= len;
            if iter_var.offset < usize::MAX {
                iter_var.offset += 1;
            }
            (iter_var.offset, over)
        },
        _ => {
            assert(false);
            (0, true)
        },
    };
    match state.get_value(target) {
        Some((_, variable)) => {
            executable.set_iter(iter, offset, variable);
        },
        None => {},
    }
    Ok(over)
}

/// Takes one step of a loop over a range, and says whether the loop is
/// over.
pub fn advance_range<T, E: Executable<T>>(
    state: &mut ProgramState,
    executable: &mut E,
    iter: VarNameId,
) -> (r: Result<bool, VariableAccessError>)
    ensures
        match r {
            Ok(over) => range_advanced(old(state)@, iter) matches Ok(x) && x.1 == over
                && final(state)@ =~~= x.0,
            Err(e) => range_advanced(old(state)@, iter) == Err::<(Frames, bool), Failure>(e@)
                && final(state)@ == old(state)@,
        },
{
    match state.get_value(iter) {
        None => {
            return Err(VariableAccessError::MissingVariable(iter));
        },
        Some((_, Object::Counter(_))) => {},
        Some(_) => {
            return Err(VariableAccessError::NotARef);
        },
    }
    let (offset, over): (usize, bool) = match state.get_value_mut(iter) {
        Some(Object::Counter(range_counter)) => {
            let reached: i128 = range_counter.start as i128 + range_counter.offset as i128 + 1;
            let over: bool = reached >= range_counter.end as i128;
            if range_counter.offset < usize::MAX {
                range_counter.offset += 1;
            }
            (range_counter.offset, over)
        },
        _ => {
            assert(false);
            (0, true)
        },
    };
    match state.get_value(iter) {
        Some((_, variable)) => {
            executable.set_iter(iter, offset, variable);
        },
        None => {},
    }
    Ok(over)
}

/// Whether the guard `cond` skips its block: it does unless `cond` names a
/// struct, or a reference to one, whose base is exactly `false`.
pub fn guard(state: &ProgramState, cond: &VarFieldId) -> (r: Result<bool, VariableAccessError>)
    ensures
        match r {
            Ok(skips) => guard_skips(state@, *cond) == Ok::<bool, Failure>(skips),
            Err(e) => guard_skips(state@, *cond) == Err::<bool, Failure>(e@),
        },
{
    let object = match state.get_object(cond) {
        Ok(object) => object,
        Err(e) => {
            return Err(e);
        },
    };
    match state.as_struct(object) {
        Ok(value) => Ok(!str_eq(value.base.as_str(), "false")),
        Err(e) => Err(e),
    }
}

/// Binds `target`, in the innermost scope, to the object that `literal`
/// describes, with every name in it interned in `names`.
pub fn load_var(
    state: &mut ProgramState,
    names: &mut VarNames,
    target: VarNameId,
    literal: ObjectDeserialize,
)
    ensures
        final(state)@ =~~= inserted(
            old(state)@,
            target.0,
            super::load::loaded(old(names)@, literal).0,
            None,
        ),
        final(names)@ == super::load::loaded(old(names)@, literal).1,
{
    let object = literal.to_object(names);
    state.insert_var(target, object, None);
}

/// What running an instruction that is left to the executor says of the
/// scopes and of the instruction to go on with.
pub open spec fn delegated_step<T>(
    i: Instruction<T>,
    before: Frames,
    counter: usize,
    r: Result<usize, VariableAccessError>,
    now: Frames,
) -> bool {
    match i {
        Instruction::Print(path) => now == before && match r {
            Ok(next) => next == after(counter) && resolve(before, path) is Ok,
            Err(e) => resolve(before, path) == Err::<Value, Failure>(e@),
        },
        Instruction::LoadVar { target, path } => match r {
            Ok(next) => next == after(counter) && string_value(before, path.0@) is Ok && exists|
                v: Value,
            |
                now == #[trigger] inserted(before, target.0, v, None),
            Err(e) => now == before && match string_value(before, path.0@) {
                Ok(file) => e@ == Failure::MissingFile(file),
                Err(f) => e@ == f,
            },
        },
        Instruction::Command(_) => r matches Ok(next) ==> next == after(counter),
        _ => true,
    }
}

/// What running one instruction says of its result and of the scopes after
/// it. An instruction that is not left to the executor does exactly what
/// [`stepped`] says, or fails with one of its failures and leaves the
/// scopes as they were; of one that is left to the executor
/// [`delegated_step`] holds.
pub open spec fn step_outcome<T>(
    i: Instruction<T>,
    before: Frames,
    counter: usize,
    r: Result<usize, VariableAccessError>,
    now: Frames,
) -> bool {
    if is_delegated(i) {
        delegated_step(i, before, counter, r, now)
    } else {
        match r {
            Ok(next) => stepped(i, before, counter) == Some((now, next)),
            Err(e) => stepped(i, before, counter) is None && step_may_fail(i, before, e@) && now
                == before,
        }
    }
}

/// Whether one instruction, run with success, leads from the scopes and the
/// counter `a` to the scopes and the counter `b`.
pub open spec fn linked<T>(code: Seq<Instruction<T>>, a: (Frames, usize), b: (Frames, usize)) -> bool {
    a.1 < code.len() && step_outcome(
        code[a.1 as int],
        a.0,
        a.1,
        Ok::<usize, VariableAccessError>(b.1),
        b.0,
    )
}

/// Whether `t` is the course of a run: the scopes and the counter before
/// each instruction that was run and after the last, each led to from the
/// one before it by one instruction.
pub open spec fn is_trace<T>(code: Seq<Instruction<T>>, t: Seq<(Frames, usize)>) -> bool {
    &&& t.len() >= 1
    &&& forall|i: int| 0 <= i < t.len() - 1 ==> #[trigger] linked_at(code, t, i)
}

/// Whether one instruction leads from the `i`-th point of `t` to the next.
pub open spec fn linked_at<T>(code: Seq<Instruction<T>>, t: Seq<(Frames, usize)>, i: int) -> bool {
    linked(code, t[i], t[i + 1])
}

/// A course goes on by one instruction that leads on from its end.
pub proof fn lemma_trace_push<T>(
    code: Seq<Instruction<T>>,
    t: Seq<(Frames, usize)>,
    next: (Frames, usize),
)
    requires
        is_trace(code, t),
        linked(code, t.last(), next),
    ensures
        is_trace(code, t.push(next)),
        t.push(next)[0] == t[0],
        t.push(next).last() == next,
{
    let longer = t.push(next);
    assert forall|i: int| 0 <= i < longer.len() - 1 implies #[trigger] linked_at(code, longer, i) by {
        if i < t.len() - 1 {
            assert(linked_at(code, t, i));
            assert(longer[i] == t[i]);
            assert(longer[i + 1] == t[i + 1]);
        } else {
            assert(longer[i] == t.last());
            assert(longer[i + 1] == next);
        }
    }
}

/// The course of a program that leaves no instruction to the executor is
/// what its instructions, run one after the other, lead to.
pub proof fn lemma_plain_trace<T>(code: Seq<Instruction<T>>, t: Seq<(Frames, usize)>, n: nat)
    requires
        is_plain(code),
        is_trace(code, t),
        n < t.len(),
    ensures
        ran(code, t[0].0, t[0].1, n) == Some(t[n as int]),
    decreases n,
{
    reveal(ran);
    if n > 0 {
        lemma_plain_trace(code, t, (n - 1) as nat);
        assert(linked_at(code, t, n - 1));
    }
}

/// Whether a run whose course is `t` may end with the result `r` and the
/// scopes `now`.
///
/// A run is finished only where the counter has passed the last
/// instruction; what the executor's `finish` then leaves of the scopes is
/// its own affair. A run that is cancelled or paused ends where its course
/// ends, before an instruction that there is, and a paused one has used up
/// its steps. A run that fails has tried the instruction at the end of its
/// course, and that instruction gives the failure.
pub open spec fn ended<T>(
    code: Seq<Instruction<T>>,
    t: Seq<(Frames, usize)>,
    max_steps: u64,
    r: Result<RunEnd, (usize, VariableAccessError)>,
    now: Frames,
) -> bool {
    match r {
        Ok(RunEnd::Finished) => t.last().1 >= code.len(),
        Ok(RunEnd::Cancelled) => t.last().0 == now && t.last().1 < code.len(),
        Ok(RunEnd::Paused(counter)) => t.last() == (now, counter) && counter < code.len()
            && t.len() == max_steps + 1,
        Err((counter, e)) => t.last().1 == counter && counter < code.len() && t.len()
            <= max_steps && step_outcome(
            code[counter as int],
            t.last().0,
            counter,
            Err::<usize, VariableAccessError>(e),
            now,
        ),
    }
}

/// Whether a run of at most `max_steps` instructions from the scopes
/// `before` and the instruction `start` may end with the result `r` and the
/// scopes `now`: it may where it has a course that begins there, is no
/// longer than the steps allow, and ends so.
pub open spec fn is_run<T>(
    code: Seq<Instruction<T>>,
    before: Frames,
    start: usize,
    max_steps: u64,
    r: Result<RunEnd, (usize, VariableAccessError)>,
    now: Frames,
) -> bool {
    exists|t: Seq<(Frames, usize)>|
        #[trigger] is_trace(code, t) && t[0] == (before, start) && t.len() <= max_steps + 1
            && ended(code, t, max_steps, r, now)
}

/// What is known besides of the run of a program that leaves no instruction
/// to the executor: the scopes and the counter are those that the
/// instructions run so far, one after the other, lead to.
pub open spec fn is_plain_run<T>(
    code: Seq<Instruction<T>>,
    before: Frames,
    start: usize,
    max_steps: u64,
    r: Result<RunEnd, (usize, VariableAccessError)>,
    now: Frames,
) -> bool {
    match r {
        Ok(RunEnd::Finished) => exists|n: nat|
            n <= max_steps && (#[trigger] ran(code, before, start, n) matches Some(x) && x.1
                >= code.len()),
        Ok(RunEnd::Cancelled) => exists|n: nat|
            n <= max_steps && (#[trigger] ran(code, before, start, n) matches Some(x) && x.0 == now
                && x.1 < code.len()),
        Ok(RunEnd::Paused(counter)) => ran(code, before, start, max_steps as nat) == Some(
            (now, counter),
        ),
        Err((counter, e)) => exists|n: nat|
            n < max_steps && #[trigger] ran(code, before, start, n) == Some((now, counter))
                && stepped(code[counter as int], now, counter) is None && step_may_fail(
                code[counter as int],
                now,
                e@,
            ),
    }
}

/// Where a program leaves no instruction to the executor, a run with a
/// course is a run of its instructions one after the other.
pub proof fn lemma_plain_run<T>(
    code: Seq<Instruction<T>>,
    t: Seq<(Frames, usize)>,
    max_steps: u64,
    r: Result<RunEnd, (usize, VariableAccessError)>,
    now: Frames,
)
    requires
        is_plain(code),
        is_trace(code, t),
        t.len() <= max_steps + 1,
        ended(code, t, max_steps, r, now),
    ensures
        is_plain_run(code, t[0].0, t[0].1, max_steps, r, now),
{
    let n = (t.len() - 1) as nat;
    lemma_plain_trace(code, t, n);
    assert(ran(code, t[0].0, t[0].1, n) == Some(t.last()));
    match r {
        Err((counter, e)) => {
            assert(!is_delegated(code[counter as int]));
        },
        _ => {},
    }
}

/// What one turn of a run says of its result and of the scopes after it,
/// given whether the cancellation flag was found set: a turn that finds it
/// set runs nothing, and any other turn runs the instruction.
pub open spec fn turn_outcome<T>(
    i: Instruction<T>,
    before: Frames,
    counter: usize,
    cancelled: bool,
    r: Result<Option<usize>, VariableAccessError>,
    now: Frames,
) -> bool {
    if cancelled {
        r matches Ok(None) && now == before
    } else {
        match r {
            Ok(Some(next)) => step_outcome(
                i,
                before,
                counter,
                Ok::<usize, VariableAccessError>(next),
                now,
            ),
            Ok(None) => false,
            Err(e) => step_outcome(i, before, counter, Err::<usize, VariableAccessError>(e), now),
        }
    }
}

impl<T> Program<T> {
    /// Runs the instruction at `counter` and returns the instruction to go
    /// on with. An instruction that fails leaves the scopes as they were,
    /// unless it is a command.
    #[verifier::rlimit(40)]
    pub fn step<E: Executable<T>>(
        &self,
        counter: usize,
        executable: &mut E,
        state: &mut ProgramState,
        shutdown: &Shutdown,
    ) -> (r: Result<usize, VariableAccessError>)
        requires
            counter < self.0@.len(),
        ensures
            step_outcome(self.0@[counter as int], old(state)@, counter, r, final(state)@),
    {
        let len: usize = self.0.len();
        let next: usize = counter + 1;
        match &self.0[counter] {
            Instruction::PushScope => {
                state.new_scope();
                Ok(next)
            },
            Instruction::PopScope => {
                state.pop_scope();
                Ok(next)
            },
            Instruction::Print(variable) => {
                match state.get_object(variable) {
                    Ok(object) => {
                        executable.print(state, object);
                        Ok(next)
                    },
                    Err(e) => Err(e),
                }
            },
            Instruction::PushList { target, object } => {
                let object = match object.evaluate(state) {
                    Ok(object) => object,
                    Err(e) => {
                        return Err(e);
                    },
                };
                match push_list(state, *target, object) {
                    Ok(()) => Ok(next),
                    Err(e) => Err(e),
                }
            },
            Instruction::CreateVar { target, scope, value } => {
                let eval = match value.evaluate(state) {
                    Ok(object) => object,
                    Err(e) => {
                        return Err(e);
                    },
                };
                create_var(state, *target, *scope, eval);
                Ok(next)
            },
            Instruction::AssignVar { target, scope, value } => {
                let eval = match value.evaluate(state) {
                    Ok(object) => object,
                    Err(e) => {
                        return Err(e);
                    },
                };
                assign_var(state, *target, *scope, eval);
                Ok(next)
            },
            Instruction::LoadVar { target, path } => {
                let path = match path.evaluate(state) {
                    Ok(path) => path,
                    Err(e) => {
                        return Err(e);
                    },
                };
                match executable.load(path.as_str()) {
                    None => Err(VariableAccessError::MissingFile(path)),
                    Some(literal) => {
                        let names = executable.var_names_mut();
                        let ghost held = names@;
                        let ghost read = literal;
                        load_var(state, names, *target, literal);
                        proof {
                            let v = super::load::loaded(held, read).0;
                            assert(state@ == inserted(old(state)@, target.0, v, None));
                        }
                        Ok(next)
                    },
                }
            },
            Instruction::StartIter { target: IterTargetExpr::Variable(target), iter, jump } => {
                match start_variable(state, executable, *target, *iter) {
                    Ok(true) => Ok(next),
                    Ok(false) => Ok(jump.0),
                    Err(e) => Err(e),
                }
            },
            Instruction::StartIter { target: IterTargetExpr::Range { start, end }, iter, jump } => {
                match start_range(state, executable, start, end, *iter) {
                    Ok(true) => Ok(next),
                    Ok(false) => Ok(jump.0),
                    Err(e) => Err(e),
                }
            },
            Instruction::Increment { target: IterTarget::Variable(target), iter, jump } => {
                match advance_variable(state, executable, *target, *iter) {
                    Ok(true) => Ok(jump.0),
                    Ok(false) => Ok(next),
                    Err(e) => Err(e),
                }
            },
            Instruction::Increment { target: IterTarget::Range, iter, jump } => {
                match advance_range(state, executable, *iter) {
                    Ok(true) => Ok(jump.0),
                    Ok(false) => Ok(next),
                    Err(e) => Err(e),
                }
            },
            Instruction::ConditionalJump { cond, jump } => {
                match guard(state, cond) {
                    Ok(true) => Ok(jump.0),
                    Ok(false) => Ok(next),
                    Err(e) => Err(e),
                }
            },
            Instruction::Goto(target) => Ok(target.0),
            Instruction::Command(command) => {
                match executable.execute(command, state, shutdown) {
                    Ok(()) => Ok(next),
                    Err(e) => Err(e),
                }
            },
        }
    }

    /// Takes one turn of a run at the instruction `counter`, given whether the
    /// cancellation flag was found set. Where it was, the executor's
    /// `shutdown` is called, no instruction is run and the scopes stay as
    /// they are; `None` says that the run is over. Otherwise the instruction
    /// is run, and the instruction to go on with is returned.
    pub fn turn<E: Executable<T>>(
        &self,
        counter: usize,
        cancelled: bool,
        executable: &mut E,
        state: &mut ProgramState,
        shutdown: &Shutdown,
    ) -> (r: Result<Option<usize>, VariableAccessError>)
        requires
            counter < self.0@.len(),
        ensures
            turn_outcome(
                self.0@[counter as int],
                old(state)@,
                counter,
                cancelled,
                r,
                final(state)@,
            ),
    {
        if cancelled {
            executable.shutdown();
            return Ok(None);
        }
        match self.step(counter, executable, state, shutdown) {
            Ok(next) => Ok(Some(next)),
            Err(e) => Err(e),
        }
    }

    /// Runs the program from the instruction `start`, for at most
    /// `max_steps` instructions.
    ///
    /// Before each instruction the cancellation flag is read and a turn is
    /// taken: where the flag is set, the executor's `shutdown` is called and
    /// the run ends at once. Where the counter passes the last instruction
    /// the executor's `finish` is called. An instruction that fails ends the
    /// run with its index and its failure.
    ///
    /// Whatever the executor and the flag do, the run has a course: the
    /// scopes and the counter before each instruction, each led to by the
    /// instruction before it, and the result says where that course ends.
    pub fn run_from<E: Executable<T>>(
        &self,
        start: usize,
        max_steps: u64,
        executable: &mut E,
        state: &mut ProgramState,
        shutdown: &Shutdown,
    ) -> (r: Result<RunEnd, (usize, VariableAccessError)>)
        ensures
            is_run(self.0@, old(state)@, start, max_steps, r, final(state)@),
            is_plain(self.0@) ==> is_plain_run(
                self.0@,
                old(state)@,
                start,
                max_steps,
                r,
                final(state)@,
            ),
    {
        let mut counter: usize = start;
        let mut left: u64 = max_steps;
        let ghost mut course: Seq<(Frames, usize)> = seq![(state@, start)];
        while counter < self.0.len()
            invariant
                left <= max_steps,
                is_trace(self.0@, course),
                course[0] == (old(state)@, start),
                course.len() == max_steps - left + 1,
                course.last() == (state@, counter),
            decreases left,
        {
            let cancelled = shutdown.is_shutdown();
            if !cancelled && left == 0 {
                proof {
                    assert(ended(
                        self.0@,
                        course,
                        max_steps,
                        Ok::<RunEnd, (usize, VariableAccessError)>(RunEnd::Paused(counter)),
                        state@,
                    ));
                    if is_plain(self.0@) {
                        lemma_plain_run(
                            self.0@,
                            course,
                            max_steps,
                            Ok::<RunEnd, (usize, VariableAccessError)>(RunEnd::Paused(counter)),
                            state@,
                        );
                    }
                }
                return Ok(RunEnd::Paused(counter));
            }
            let ghost before = state@;
            match self.turn(counter, cancelled, executable, state, shutdown) {
                Ok(None) => {
                    proof {
                        assert(ended(
                            self.0@,
                            course,
                            max_steps,
                            Ok::<RunEnd, (usize, VariableAccessError)>(RunEnd::Cancelled),
                            state@,
                        ));
                        if is_plain(self.0@) {
                            lemma_plain_run(
                                self.0@,
                                course,
                                max_steps,
                                Ok::<RunEnd, (usize, VariableAccessError)>(RunEnd::Cancelled),
                                state@,
                            );
                        }
                    }
                    return Ok(RunEnd::Cancelled);
                },
                Ok(Some(next)) => {
                    proof {
                        lemma_trace_push(self.0@, course, (state@, next));
                        course = course.push((state@, next));
                    }
                    counter = next;
                },
                Err(e) => {
                    proof {
                        assert(ended(
                            self.0@,
                            course,
                            max_steps,
                            Err::<RunEnd, (usize, VariableAccessError)>((counter, e)),
                            state@,
                        ));
                        if is_plain(self.0@) {
                            lemma_plain_run(
                                self.0@,
                                course,
                                max_steps,
                                Err::<RunEnd, (usize, VariableAccessError)>((counter, e)),
                                state@,
                            );
                        }
                    }
                    return Err((counter, e));
                },
            }
            left -= 1;
        }
        let ghost done = state@;
        executable.finish(state, shutdown);
        proof {
            assert(ended(
                self.0@,
                course,
                max_steps,
                Ok::<RunEnd, (usize, VariableAccessError)>(RunEnd::Finished),
                state@,
            ));
            if is_plain(self.0@) {
                lemma_plain_run(
                    self.0@,
                    course,
                    max_steps,
                    Ok::<RunEnd, (usize, VariableAccessError)>(RunEnd::Finished),
                    state@,
                );
            }
        }
        Ok(RunEnd::Finished)
    }

    /// Runs the program from its first instruction, for at most `max_steps`
    /// instructions.
    pub fn run<E: Executable<T>>(
        &self,
        executable: &mut E,
        state: &mut ProgramState,
        shutdown: &Shutdown,
        max_steps: u64,
    ) -> (r: Result<RunEnd, (usize, VariableAccessError)>)
        ensures
            is_run(self.0@, old(state)@, 0, max_steps, r, final(state)@),
            is_plain(self.0@) ==> is_plain_run(
                self.0@,
                old(state)@,
                0,
                max_steps,
                r,
                final(state)@,
            ),
    {
        self.run_from(0, max_steps, executable, state, shutdown)
    }
}

} // verus!
