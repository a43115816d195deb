//! Runs in which the executor leaves the scopes as they are.

use crate::program::ids::InstructionId;
use crate::program::instruction::Instruction;
use crate::program::path::{Frames, VariableAccessError};
use crate::program::run::{ended, is_plain_run, is_run, is_trace, linked_at, RunEnd};
use crate::program::semantics::{after, is_delegated, ran};
use vstd::prelude::*;

verus! {

/// The code with a jump to the next instruction in place of each
/// instruction that is left to the executor.
pub open spec fn skipping<T>(code: Seq<Instruction<T>>) -> Seq<Instruction<T>> {
    Seq::new(
        code.len(),
        |i: int|
            if is_delegated(code[i]) {
                Instruction::Goto(InstructionId(after(i as usize)))
            } else {
                code[i]
            },
    )
}

/// Whether the `i`-th instruction of the course `t` left the scopes as they
/// were.
pub open spec fn kept_at(t: Seq<(Frames, usize)>, i: int) -> bool {
    t[i + 1].0 == t[i].0
}

/// Whether the executor left the scopes as they were at each instruction of
/// the course `t` that was left to it.
pub open spec fn is_quiet<T>(code: Seq<Instruction<T>>, t: Seq<(Frames, usize)>) -> bool {
    forall|i: int|
        0 <= i < t.len() - 1 && t[i].1 < code.len() && is_delegated(code[t[i].1 as int])
            ==> #[trigger] kept_at(t, i)
}

/// The course of a run in which the executor leaves the scopes as they are
/// is what the instructions lead to, one after the other, with a jump to
/// the next instruction in place of each that is left to the executor. What
/// holds of loops that are run without an executor so holds of such a run.
pub proof fn lemma_quiet_trace<T>(code: Seq<Instruction<T>>, t: Seq<(Frames, usize)>, n: nat)
    requires
        is_trace(code, t),
        is_quiet(code, t),
        n < t.len(),
    ensures
        ran(skipping(code), t[0].0, t[0].1, n) == Some(t[n as int]),
    decreases n,
{
    reveal(ran);
    if n > 0 {
        lemma_quiet_trace(code, t, (n - 1) as nat);
        assert(linked_at(code, t, n - 1));
        if is_delegated(code[t[n - 1].1 as int]) {
            assert(kept_at(t, n - 1));
        }
    }
}

/// A run that ends without a failure, and in which the executor leaves the
/// scopes as they are, ends as the run of the program with a jump to the
/// next instruction in place of each instruction that is left to the
/// executor.
pub proof fn lemma_quiet_run<T>(
    code: Seq<Instruction<T>>,
    t: Seq<(Frames, usize)>,
    max_steps: u64,
    r: Result<RunEnd, (usize, VariableAccessError)>,
    now: Frames,
)
    requires
        is_trace(code, t),
        is_quiet(code, t),
        t.len() <= max_steps + 1,
        ended(code, t, max_steps, r, now),
        r is Ok,
    ensures
        is_plain_run(skipping(code), t[0].0, t[0].1, max_steps, r, now),
{
    let n = (t.len() - 1) as nat;
    lemma_quiet_trace(code, t, n);
    assert(ran(skipping(code), t[0].0, t[0].1, n) == Some(t.last()));
}

/// Whether the only instructions of `code` that are left to the executor
/// are those that show an object.
pub open spec fn only_prints<T>(code: Seq<Instruction<T>>) -> bool {
    forall|i: int| 0 <= i < code.len() && is_delegated(#[trigger] code[i]) ==> code[i] is Print
}

/// To show an object changes nothing: in a run of a program that leaves
/// nothing else to the executor the scopes are left as they are.
pub proof fn lemma_prints_are_quiet<T>(code: Seq<Instruction<T>>, t: Seq<(Frames, usize)>)
    requires
        is_trace(code, t),
        only_prints(code),
    ensures
        is_quiet(code, t),
{
    assert forall|i: int|
        0 <= i < t.len() - 1 && t[i].1 < code.len() && is_delegated(
            code[t[i].1 as int],
        ) implies #[trigger] kept_at(t, i) by {
        assert(linked_at(code, t, i));
    }
}

/// A run of a program that leaves nothing to the executor but to show
/// objects, if it ends without a failure, ends as the run of the program
/// with jumps in place of those instructions: what holds of the loops of
/// that program holds of the run.
pub proof fn lemma_print_run<T>(
    code: Seq<Instruction<T>>,
    before: Frames,
    start: usize,
    max_steps: u64,
    r: Result<RunEnd, (usize, VariableAccessError)>,
    now: Frames,
)
    requires
        is_run(code, before, start, max_steps, r, now),
        only_prints(code),
        r is Ok,
    ensures
        is_plain_run(skipping(code), before, start, max_steps, r, now),
{
    let t = choose|t: Seq<(Frames, usize)>|
        #[trigger] is_trace(code, t) && t[0] == (before, start) && t.len() <= max_steps + 1
            && ended(code, t, max_steps, r, now);
    lemma_prints_are_quiet(code, t);
    lemma_quiet_run(code, t, max_steps, r, now);
}

} // verus!
