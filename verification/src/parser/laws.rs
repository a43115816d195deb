//! What holds of the code of a lock-step loop when it is run.

use super::{group_loop, pairs};
use crate::bed::expr::IterTargetExpr;
use crate::program::ids::{InstructionId, VarNameId};
use crate::program::instruction::{Instruction, IterTarget};
use crate::program::passes::{
    advanced, are_apart, are_cursors, at_steps, first_ref, has_next, lemma_advanced_keeps,
    lemma_goto, lemma_lock_step, lemma_pop, lemma_ran_next, lemma_ran_none, lemma_ran_pop,
    lemma_ran_push, lemma_start_one, lemma_started_keeps, lemma_started_target,
    lemma_target_kept, offset_of, started,
};
use crate::program::path::{find_scope, Frames};
use crate::program::semantics::{iter_len, ran};
use vstd::prelude::*;

verus! {

/// The targets of a loop that steps over the variables `vars`.
pub open spec fn variables(vars: Seq<VarNameId>) -> Seq<IterTargetExpr> {
    Seq::new(vars.len(), |k: int| IterTargetExpr::Variable(vars[k]))
}

/// Where the parts of a lock-step loop stand in its code: after the body
/// the scope of the body is popped, then each variable has its step, which
/// jumps to the end of the loop, then the loop goes back to the scope of
/// the body, and at its end the scope of the loop is popped.
pub proof fn lemma_group_loop_code<T>(
    iters: Seq<VarNameId>,
    targets: Seq<IterTargetExpr>,
    at: int,
    body: Seq<Instruction<T>>,
)
    ensures
        ({
            let n = pairs(iters, targets) as int;
            let b = body.len() as int;
            let code = group_loop::<T>(iters, targets, at, body);
            &&& code.len() == 2 * n + b + 5
            &&& code[0] == Instruction::<T>::PushScope
            &&& forall|k: int|
                0 <= k < n ==> #[trigger] code[1 + k] == (Instruction::<T>::StartIter {
                    target: targets[k],
                    iter: iters[k],
                    jump: InstructionId((at + 2 * n + b + 4) as usize),
                })
            &&& code[n + 1] == Instruction::<T>::PushScope
            &&& forall|i: int| 0 <= i < b ==> code[n + 2 + i] == body[i]
            &&& code[n + b + 2] == Instruction::<T>::PopScope
            &&& forall|k: int|
                0 <= k < n ==> #[trigger] code[n + b + 3 + k] == (Instruction::<T>::Increment {
                    target: targets[k].target(),
                    iter: iters[k],
                    jump: InstructionId((at + 2 * n + b + 4) as usize),
                })
            &&& code[2 * n + b + 3] == Instruction::<T>::Goto(InstructionId((at + 1 + n) as usize))
            &&& code[2 * n + b + 4] == Instruction::<T>::PopScope
        }),
{
    let n = pairs(iters, targets) as int;
    let b = body.len() as int;
    let code = group_loop::<T>(iters, targets, at, body);
    assert(code.len() == 2 * n + b + 5);
    assert forall|k: int| 0 <= k < n implies #[trigger] code[1 + k] == (Instruction::<
        T,
    >::StartIter {
        target: targets[k],
        iter: iters[k],
        jump: InstructionId((at + 2 * n + b + 4) as usize),
    }) by {
        let begin = super::starts::<T>(iters, targets, at + 2 * n + b + 4);
        assert(code[1 + k] == begin[k]);
    }
    assert forall|k: int| 0 <= k < n implies #[trigger] code[n + b + 3 + k] == (Instruction::<
        T,
    >::Increment {
        target: targets[k].target(),
        iter: iters[k],
        jump: InstructionId((at + 2 * n + b + 4) as usize),
    }) by {
        let steps = super::increments::<T>(iters, targets, at + 2 * n + b + 4);
        assert(code[n + b + 3 + k] == steps[k]);
    }
}

/// Whether `code` holds at `at` the lock-step loop over the variables `vars`
/// with the loop variables `iters` and the body `body`.
#[verifier::opaque]
pub open spec fn holds_group_loop<T>(
    code: Seq<Instruction<T>>,
    at: usize,
    iters: Seq<VarNameId>,
    vars: Seq<VarNameId>,
    body: Seq<Instruction<T>>,
) -> bool {
    &&& iters.len() == vars.len()
    &&& code.len() <= usize::MAX
    &&& at + 2 * iters.len() + body.len() + 5 <= code.len()
    &&& code.subrange(at as int, at + 2 * iters.len() + body.len() + 5) == group_loop::<T>(
        iters,
        variables(vars),
        at as int,
        body,
    )
}

/// What was compiled as a lock-step loop behind the code `before`, with the
/// code `rest` behind it, holds that loop where `before` ends.
pub proof fn lemma_compiled_group_loop<T>(
    before: Seq<Instruction<T>>,
    iters: Seq<VarNameId>,
    vars: Seq<VarNameId>,
    body: Seq<Instruction<T>>,
    rest: Seq<Instruction<T>>,
)
    requires
        iters.len() == vars.len(),
        before.len() + 2 * iters.len() + body.len() + 5 + rest.len() <= usize::MAX,
    ensures
        holds_group_loop(
            before + group_loop::<T>(iters, variables(vars), before.len() as int, body) + rest,
            before.len() as usize,
            iters,
            vars,
            body,
        ),
{
    reveal(holds_group_loop);
    let inner = group_loop::<T>(iters, variables(vars), before.len() as int, body);
    let code = before + inner + rest;
    lemma_group_loop_code::<T>(iters, variables(vars), before.len() as int, body);
    assert(code.subrange(before.len() as int, (before.len() + inner.len()) as int) =~= inner);
}

/// Whether `code` holds, from `steps` on, what a lock-step loop ends with:
/// the step of each variable, which jumps to `end`, then the way back to
/// `back`, and at `end` the pop of the scope of the loop.
#[verifier::opaque]
pub open spec fn is_loop_end<T>(
    code: Seq<Instruction<T>>,
    steps: usize,
    iters: Seq<VarNameId>,
    vars: Seq<VarNameId>,
    back: usize,
    end: usize,
) -> bool {
    &&& iters.len() == vars.len()
    &&& code.len() <= usize::MAX
    &&& end < code.len()
    &&& end == steps + iters.len() + 1
    &&& forall|k: int|
        0 <= k < iters.len() ==> #[trigger] code[steps + k] == (Instruction::<T>::Increment {
            target: IterTarget::Variable(vars[k]),
            iter: iters[k],
            jump: InstructionId(end),
        })
    &&& code[steps + iters.len()] == Instruction::<T>::Goto(InstructionId(back))
    &&& code[end as int] == Instruction::<T>::PopScope
}

/// Code that holds a lock-step loop holds what the loop ends with, behind
/// the body of the loop.
pub proof fn lemma_group_loop_end<T>(
    code: Seq<Instruction<T>>,
    at: usize,
    iters: Seq<VarNameId>,
    vars: Seq<VarNameId>,
    body: Seq<Instruction<T>>,
)
    requires
        holds_group_loop(code, at, iters, vars, body),
    ensures
        at + 2 * iters.len() + body.len() + 5 <= usize::MAX,
        is_loop_end(
            code,
            (at + iters.len() + body.len() + 3) as usize,
            iters,
            vars,
            (at + 1 + iters.len()) as usize,
            (at + 2 * iters.len() + body.len() + 4) as usize,
        ),
{
    reveal(holds_group_loop);
    reveal(is_loop_end);
    let n = iters.len() as int;
    let b = body.len() as int;
    let steps = (at + n + b + 3) as usize;
    let end = (at + 2 * n + b + 4) as usize;
    let targets = variables(vars);
    let inner = group_loop::<T>(iters, targets, at as int, body);
    lemma_group_loop_code::<T>(iters, targets, at as int, body);
    assert(pairs(iters, targets) == n);
    assert forall|i: int| 0 <= i < 2 * n + b + 5 implies code[at + i] == inner[i] by {
        assert(code.subrange(at as int, at + 2 * n + b + 5)[i] == code[at + i]);
    }
    assert forall|k: int| 0 <= k < n implies #[trigger] code[steps + k] == (Instruction::<
        T,
    >::Increment {
        target: IterTarget::Variable(vars[k]),
        iter: iters[k],
        jump: InstructionId(end),
    }) by {
        assert(code[at + (n + b + 3 + k)] == inner[n + b + 3 + k]);
        assert(targets[k].target() == IterTarget::Variable(vars[k]));
    }
    assert(code[at + (2 * n + b + 3)] == inner[2 * n + b + 3]);
    assert(code[at + (2 * n + b + 4)] == inner[2 * n + b + 4]);
}

/// Whether each of `vars` is bound to something of as many steps as `lens`
/// says.
pub open spec fn are_targets(frames: Frames, vars: Seq<VarNameId>, lens: Seq<nat>) -> bool {
    &&& vars.len() == lens.len()
    &&& forall|k: int|
        0 <= k < vars.len() ==> find_scope(frames, #[trigger] vars[k].0) is Some && iter_len(
            frames[find_scope(frames, vars[k].0)->0][vars[k].0],
        ) == Some(lens[k])
}

/// One pass of a lock-step loop over variables, from the steps after its
/// body on: all loop variables advance together, and the loop is over the
/// instant one of them has no step left.
///
/// Where every variable has a step left, each advances by one and the loop
/// goes back to its body. Where the first `j` have one left and the next
/// has none, that one's step leads to the end of the loop, no further
/// variable advances, and the scope of the loop is popped.
pub proof fn lemma_loop_end_pass<T>(
    code: Seq<Instruction<T>>,
    steps: usize,
    iters: Seq<VarNameId>,
    vars: Seq<VarNameId>,
    back: usize,
    end: usize,
    frames: Frames,
    lens: Seq<nat>,
    j: nat,
)
    requires
        is_loop_end(code, steps, iters, vars, back, end),
        are_cursors(frames, iters),
        are_targets(frames, vars, lens),
        j <= iters.len(),
        forall|k: int| 0 <= k < j ==> has_next(frames, iters, lens, k),
        j < iters.len() ==> !has_next(frames, iters, lens, j as int),
    ensures
        end < usize::MAX,
        j == iters.len() ==> ran(code, frames, steps, j + 1) == Some(
            (advanced(frames, iters, j), back),
        ),
        j < iters.len() ==> ran(code, frames, steps, j + 2) == Some(
            (advanced(frames, iters, j + 1).drop_last(), (end + 1) as usize),
        ),
{
    lemma_loop_end_steps(code, steps, iters, vars, back, end, frames, lens);
    lemma_lock_step(code, frames, steps, iters, vars, lens, end, j);
    if j == iters.len() {
        let now = advanced(frames, iters, j);
        lemma_ran_next(code, frames, steps, j, now, (steps + j) as usize);
        lemma_goto::<T>(now, (steps + j) as usize, back);
    } else {
        let now = advanced(frames, iters, j + 1);
        lemma_advanced_keeps(frames, iters, j + 1);
        lemma_ran_next(code, frames, steps, j + 1, now, end);
        lemma_pop::<T>(now, end);
    }
}

/// What a lock-step loop ends with holds the steps of its variables, and
/// behind them the way back and the pop.
pub proof fn lemma_loop_end_steps<T>(
    code: Seq<Instruction<T>>,
    steps: usize,
    iters: Seq<VarNameId>,
    vars: Seq<VarNameId>,
    back: usize,
    end: usize,
    frames: Frames,
    lens: Seq<nat>,
)
    requires
        is_loop_end(code, steps, iters, vars, back, end),
        are_cursors(frames, iters),
        are_targets(frames, vars, lens),
    ensures
        at_steps(code, frames, steps, iters, vars, lens, end),
        end < code.len(),
        code.len() <= usize::MAX,
        end == steps + iters.len() + 1,
        code[steps + iters.len()] == Instruction::<T>::Goto(InstructionId(back)),
        code[end as int] == Instruction::<T>::PopScope,
{
    reveal(is_loop_end);
    reveal(at_steps);
}

/// One pass of the lock-step loop that `code` holds at `at`, from the steps
/// after its body on; see [`lemma_loop_end_pass`].
pub proof fn lemma_group_pass<T>(
    code: Seq<Instruction<T>>,
    at: usize,
    iters: Seq<VarNameId>,
    vars: Seq<VarNameId>,
    body: Seq<Instruction<T>>,
    frames: Frames,
    lens: Seq<nat>,
    j: nat,
)
    requires
        holds_group_loop(code, at, iters, vars, body),
        are_cursors(frames, iters),
        are_targets(frames, vars, lens),
        j <= iters.len(),
        forall|k: int| 0 <= k < j ==> has_next(frames, iters, lens, k),
        j < iters.len() ==> !has_next(frames, iters, lens, j as int),
    ensures
        j == iters.len() ==> ran(
            code,
            frames,
            (at + iters.len() + body.len() + 3) as usize,
            j + 1,
        ) == Some((advanced(frames, iters, j), (at + 1 + iters.len()) as usize)),
        j < iters.len() ==> ran(
            code,
            frames,
            (at + iters.len() + body.len() + 3) as usize,
            j + 2,
        ) == Some(
            (
                advanced(frames, iters, j + 1).drop_last(),
                (at + 2 * iters.len() + body.len() + 5) as usize,
            ),
        ),
{
    lemma_group_loop_end(code, at, iters, vars, body);
    lemma_loop_end_pass(
        code,
        (at + iters.len() + body.len() + 3) as usize,
        iters,
        vars,
        (at + 1 + iters.len()) as usize,
        (at + 2 * iters.len() + body.len() + 4) as usize,
        frames,
        lens,
        j,
    );
}

/// Whether every loop variable stands at the offset `p`.
pub open spec fn all_at(frames: Frames, iters: Seq<VarNameId>, p: usize) -> bool {
    forall|k: int| 0 <= k < iters.len() ==> offset_of(frames, iters, k) == p
}

/// The least of `lens`, and 0 where there are none.
pub open spec fn shortest(lens: Seq<nat>) -> nat
    decreases lens.len(),
{
    if lens.len() == 0 {
        0
    } else if lens.len() == 1 {
        lens[0]
    } else if lens.last() < shortest(lens.drop_last()) {
        lens.last()
    } else {
        shortest(lens.drop_last())
    }
}

/// The least of some lengths is no longer than any of them, and is one of
/// them.
pub proof fn lemma_shortest(lens: Seq<nat>)
    requires
        lens.len() > 0,
    ensures
        forall|k: int| 0 <= k < lens.len() ==> shortest(lens) <= #[trigger] lens[k],
        exists|k: int| 0 <= k < lens.len() && #[trigger] lens[k] == shortest(lens),
    decreases lens.len(),
{
    if lens.len() > 1 {
        let rest = lens.drop_last();
        lemma_shortest(rest);
        assert forall|k: int| 0 <= k < lens.len() implies shortest(lens) <= #[trigger] lens[k] by {
            if k < rest.len() {
                assert(rest[k] == lens[k]);
            }
        }
        if lens.last() < shortest(rest) {
            assert(lens[lens.len() - 1] == shortest(lens));
        } else {
            let k = choose|k: int| 0 <= k < rest.len() && #[trigger] rest[k] == shortest(rest);
            assert(lens[k] == shortest(lens));
        }
    } else {
        assert(lens[0] == shortest(lens));
    }
}

/// The first of the loop variables, all at the offset `p`, that has no step
/// left, where some target has no more than `p + 1` steps.
pub proof fn lemma_first_stop(frames: Frames, iters: Seq<VarNameId>, lens: Seq<nat>, p: usize, n: nat) -> (j:
    nat)
    requires
        n <= iters.len(),
        iters.len() == lens.len(),
        all_at(frames, iters, p),
        exists|k: int| 0 <= k < n && #[trigger] lens[k] <= p + 1,
    ensures
        j < n,
        !has_next(frames, iters, lens, j as int),
        forall|k: int| 0 <= k < j ==> has_next(frames, iters, lens, k),
    decreases n,
{
    if exists|k: int| 0 <= k < n - 1 && #[trigger] lens[k] <= p + 1 {
        lemma_first_stop(frames, iters, lens, p, (n - 1) as nat)
    } else {
        let k0 = choose|k: int| 0 <= k < n && #[trigger] lens[k] <= p + 1;
        assert(k0 == n - 1);
        assert forall|k: int| 0 <= k < n - 1 implies has_next(frames, iters, lens, k) by {
            assert(!(lens[k] <= p + 1));
            assert(offset_of(frames, iters, k) == p);
        }
        assert(offset_of(frames, iters, n - 1) == p);
        (n - 1) as nat
    }
}

/// After every loop variable has advanced, the scopes are again those of a
/// pass of the loop, one step on.
pub proof fn lemma_advanced_all(
    frames: Frames,
    iters: Seq<VarNameId>,
    vars: Seq<VarNameId>,
    lens: Seq<nat>,
    p: usize,
)
    requires
        are_cursors(frames, iters),
        are_targets(frames, vars, lens),
        all_at(frames, iters, p),
        p < usize::MAX,
    ensures
        are_cursors(advanced(frames, iters, iters.len()), iters),
        are_targets(advanced(frames, iters, iters.len()), vars, lens),
        all_at(advanced(frames, iters, iters.len()), iters, (p + 1) as usize),
        advanced(frames, iters, iters.len()).drop_last() == frames.drop_last(),
{
    let n = iters.len();
    let now = advanced(frames, iters, n);
    lemma_advanced_keeps(frames, iters, n);
    assert forall|j: int| 0 <= j < iters.len() implies now.last().contains_key(
        #[trigger] iters[j].0,
    ) && now.last()[iters[j].0] is Ref && offset_of(now, iters, j) == p + 1 by {
        assert(frames.last().contains_key(iters[j].0));
        assert(now[now.len() - 1].contains_key(iters[j].0) <==> frames[frames.len()
            - 1].contains_key(iters[j].0));
        assert(offset_of(frames, iters, j) == p);
    }
    assert forall|k: int| 0 <= k < vars.len() implies find_scope(now, #[trigger] vars[k].0)
        is Some && iter_len(now[find_scope(now, vars[k].0)->0][vars[k].0]) == Some(lens[k]) by {
        assert(find_scope(frames, vars[k].0) is Some);
        lemma_target_kept(frames, iters, n, vars[k].0);
    }
    assert(now.drop_last() =~= frames.drop_last());
}

/// A lock-step loop makes as many passes as its shortest target is long.
///
/// At the steps after the body in pass `p`, with every loop variable at the
/// offset `p`: where `p + 1` is still less than the length of the shortest
/// target, every variable advances to `p + 1` and the loop goes back to its
/// body for the next pass; else the loop is left, the scope of the loop is
/// popped, and all other scopes are as they were. So the body of a loop that
/// is entered runs for the offsets 0 up to the length of the shortest target
/// and no more, provided it brings the scopes back as it found them.
pub proof fn lemma_group_next_pass<T>(
    code: Seq<Instruction<T>>,
    at: usize,
    iters: Seq<VarNameId>,
    vars: Seq<VarNameId>,
    body: Seq<Instruction<T>>,
    frames: Frames,
    lens: Seq<nat>,
    p: usize,
)
    requires
        holds_group_loop(code, at, iters, vars, body),
        iters.len() > 0,
        are_cursors(frames, iters),
        are_targets(frames, vars, lens),
        all_at(frames, iters, p),
        p < usize::MAX,
    ensures
        p + 1 < shortest(lens) ==> {
            &&& ran(
                code,
                frames,
                (at + iters.len() + body.len() + 3) as usize,
                iters.len() + 1,
            ) == Some((advanced(frames, iters, iters.len()), (at + 1 + iters.len()) as usize))
            &&& are_cursors(advanced(frames, iters, iters.len()), iters)
            &&& are_targets(advanced(frames, iters, iters.len()), vars, lens)
            &&& all_at(advanced(frames, iters, iters.len()), iters, (p + 1) as usize)
            &&& advanced(frames, iters, iters.len()).drop_last() == frames.drop_last()
        },
        p + 1 >= shortest(lens) ==> exists|j: nat|
            j < iters.len() && #[trigger] ran(
                code,
                frames,
                (at + iters.len() + body.len() + 3) as usize,
                j + 2,
            ) == Some((frames.drop_last(), (at + 2 * iters.len() + body.len() + 5) as usize)),
{
    lemma_group_loop_end(code, at, iters, vars, body);
    assert(iters.len() == lens.len()) by {
        reveal(holds_group_loop);
    }
    lemma_shortest(lens);
    if p + 1 < shortest(lens) {
        assert forall|k: int| 0 <= k < iters.len() implies has_next(frames, iters, lens, k) by {
            assert(shortest(lens) <= lens[k]);
            assert(offset_of(frames, iters, k) == p);
        }
        lemma_group_pass(code, at, iters, vars, body, frames, lens, iters.len());
        lemma_advanced_all(frames, iters, vars, lens, p);
    } else {
        let j = lemma_first_stop(frames, iters, lens, p, iters.len());
        lemma_group_pass(code, at, iters, vars, body, frames, lens, j);
        lemma_advanced_keeps(frames, iters, j + 1);
        assert(advanced(frames, iters, j + 1).drop_last() =~= frames.drop_last());
    }
}

/// Whether `code` holds, from `at` on, what a lock-step loop begins with:
/// the push of the scope of the loop and the start of each variable, which
/// jumps to `end`, where the scope of the loop is popped.
#[verifier::opaque]
pub open spec fn is_loop_start<T>(
    code: Seq<Instruction<T>>,
    at: usize,
    iters: Seq<VarNameId>,
    vars: Seq<VarNameId>,
    end: usize,
) -> bool {
    &&& iters.len() == vars.len()
    &&& code.len() <= usize::MAX
    &&& at + iters.len() + 1 <= end
    &&& end < code.len()
    &&& code[at as int] == Instruction::<T>::PushScope
    &&& forall|k: int|
        0 <= k < iters.len() ==> #[trigger] code[at + 1 + k] == (Instruction::<T>::StartIter {
            target: IterTargetExpr::Variable(vars[k]),
            iter: iters[k],
            jump: InstructionId(end),
        })
    &&& code[end as int] == Instruction::<T>::PopScope
}

/// Code that holds a lock-step loop holds what the loop begins with.
pub proof fn lemma_group_loop_start<T>(
    code: Seq<Instruction<T>>,
    at: usize,
    iters: Seq<VarNameId>,
    vars: Seq<VarNameId>,
    body: Seq<Instruction<T>>,
)
    requires
        holds_group_loop(code, at, iters, vars, body),
    ensures
        at + 2 * iters.len() + body.len() + 5 <= usize::MAX,
        is_loop_start(code, at, iters, vars, (at + 2 * iters.len() + body.len() + 4) as usize),
{
    reveal(holds_group_loop);
    reveal(is_loop_start);
    let n = iters.len() as int;
    let b = body.len() as int;
    let end = (at + 2 * n + b + 4) as usize;
    let targets = variables(vars);
    let inner = group_loop::<T>(iters, targets, at as int, body);
    lemma_group_loop_code::<T>(iters, targets, at as int, body);
    assert(pairs(iters, targets) == n);
    assert forall|i: int| 0 <= i < 2 * n + b + 5 implies code[at + i] == inner[i] by {
        assert(code.subrange(at as int, at + 2 * n + b + 5)[i] == code[at + i]);
    }
    assert(code[at + 0] == inner[0]);
    assert forall|k: int| 0 <= k < n implies #[trigger] code[at + 1 + k] == (Instruction::<
        T,
    >::StartIter {
        target: IterTargetExpr::Variable(vars[k]),
        iter: iters[k],
        jump: InstructionId(end),
    }) by {
        assert(code[at + (1 + k)] == inner[1 + k]);
    }
    assert(code[at + (2 * n + b + 4)] == inner[2 * n + b + 4]);
}

/// What code that begins a lock-step loop holds at its two ends.
pub proof fn lemma_loop_start_ends<T>(
    code: Seq<Instruction<T>>,
    at: usize,
    iters: Seq<VarNameId>,
    vars: Seq<VarNameId>,
    end: usize,
)
    requires
        is_loop_start(code, at, iters, vars, end),
    ensures
        iters.len() == vars.len(),
        code.len() <= usize::MAX,
        at + iters.len() + 1 <= end,
        end < code.len(),
        code[at as int] == Instruction::<T>::PushScope,
        code[end as int] == Instruction::<T>::PopScope,
{
    reveal(is_loop_start);
}

/// What code that begins a lock-step loop holds for its variable `k`.
pub proof fn lemma_loop_start_at<T>(
    code: Seq<Instruction<T>>,
    at: usize,
    iters: Seq<VarNameId>,
    vars: Seq<VarNameId>,
    end: usize,
    k: nat,
)
    requires
        is_loop_start(code, at, iters, vars, end),
        k < iters.len(),
    ensures
        code[at + 1 + k] == (Instruction::<T>::StartIter {
            target: IterTargetExpr::Variable(vars[k as int]),
            iter: iters[k as int],
            jump: InstructionId(end),
        }),
{
    reveal(is_loop_start);
    let j = k as int;
    assert(code[at + 1 + j] == (Instruction::<T>::StartIter {
        target: IterTargetExpr::Variable(vars[j]),
        iter: iters[j],
        jump: InstructionId(end),
    }));
}

/// The start of one variable of a lock-step loop, after those in front of
/// it: it is bound and the next instruction follows where its target has a
/// step, and the end of the loop follows where it has none.
pub proof fn lemma_enter_one<T>(
    code: Seq<Instruction<T>>,
    at: usize,
    iters: Seq<VarNameId>,
    vars: Seq<VarNameId>,
    end: usize,
    frames: Frames,
    lens: Seq<nat>,
    k: nat,
)
    requires
        is_loop_start(code, at, iters, vars, end),
        are_apart(iters, vars),
        are_targets(frames, vars, lens),
        k < iters.len(),
        ran(code, frames, at, k + 1) == Some(
            (started(frames, iters, vars, k), (at + 1 + k) as usize),
        ),
    ensures
        lens[k as int] > 0 ==> ran(code, frames, at, k + 2) == Some(
            (started(frames, iters, vars, k + 1), (at + 2 + k) as usize),
        ),
        lens[k as int] == 0 ==> ran(code, frames, at, k + 2) == Some(
            (started(frames, iters, vars, k), end),
        ),
{
    lemma_loop_start_ends(code, at, iters, vars, end);
    lemma_loop_start_at(code, at, iters, vars, end, k);
    let now = started(frames, iters, vars, k);
    let counter = (at + 1 + k) as usize;
    lemma_ran_next(code, frames, at, k + 1, now, counter);
    assert(find_scope(frames, vars[k as int].0) is Some);
    lemma_start_one(code[counter as int], frames, counter, iters, vars, k, lens[k as int], end);
}

/// The start of a lock-step loop, variable by variable: where the first `k`
/// targets each have a step, the first `k` variables are bound one after
/// the other.
pub proof fn lemma_enter_steps<T>(
    code: Seq<Instruction<T>>,
    at: usize,
    iters: Seq<VarNameId>,
    vars: Seq<VarNameId>,
    end: usize,
    frames: Frames,
    lens: Seq<nat>,
    k: nat,
)
    requires
        is_loop_start(code, at, iters, vars, end),
        are_apart(iters, vars),
        are_targets(frames, vars, lens),
        k <= iters.len(),
        forall|j: int| 0 <= j < k ==> lens[j] > 0,
    ensures
        ran(code, frames, at, k + 1) == Some(
            (started(frames, iters, vars, k), (at + 1 + k) as usize),
        ),
    decreases k,
{
    lemma_loop_start_ends(code, at, iters, vars, end);
    if k > 0 {
        let before = (k - 1) as nat;
        lemma_enter_steps(code, at, iters, vars, end, frames, lens, before);
        lemma_enter_one(code, at, iters, vars, end, frames, lens, before);
        assert(lens[before as int] > 0);
        assert(before + 2 == k + 1 && before + 1 == k);
    } else {
        lemma_ran_none(code, frames, at);
        lemma_ran_push(code, frames, at, 0, frames, at);
        assert(started(frames, iters, vars, 0) == frames.push(Map::empty()));
    }
}

/// After every loop variable has been bound, the scopes are those of the
/// first pass of the loop.
pub proof fn lemma_started_all(
    frames: Frames,
    iters: Seq<VarNameId>,
    vars: Seq<VarNameId>,
    lens: Seq<nat>,
)
    requires
        are_apart(iters, vars),
        are_targets(frames, vars, lens),
    ensures
        are_cursors(started(frames, iters, vars, iters.len()), iters),
        are_targets(started(frames, iters, vars, iters.len()), vars, lens),
        all_at(started(frames, iters, vars, iters.len()), iters, 0),
        started(frames, iters, vars, iters.len()).drop_last() == frames,
{
    let n = iters.len();
    let now = started(frames, iters, vars, n);
    lemma_started_keeps(frames, iters, vars, n);
    assert forall|j: int| 0 <= j < iters.len() implies now.last().contains_key(
        #[trigger] iters[j].0,
    ) && now.last()[iters[j].0] is Ref && offset_of(now, iters, j) == 0 by {
        assert(now.last()[iters[j].0] == first_ref(frames, vars[j]));
    }
    assert forall|k: int| 0 <= k < vars.len() implies find_scope(now, #[trigger] vars[k].0)
        is Some && iter_len(now[find_scope(now, vars[k].0)->0][vars[k].0]) == Some(lens[k]) by {
        assert(find_scope(frames, vars[k].0) is Some);
        lemma_started_target(frames, iters, vars, n, k);
    }
}

/// A lock-step loop is entered where each of its targets has a step, and
/// skipped where one has none.
///
/// Where the shortest target has a step, the scope of the loop is pushed,
/// every loop variable is bound to a reference to the first step of its
/// target, and the body is reached for the first pass. Where some target
/// has none, the loop leads to the instruction behind it with the scopes as
/// they were.
pub proof fn lemma_group_enter<T>(
    code: Seq<Instruction<T>>,
    at: usize,
    iters: Seq<VarNameId>,
    vars: Seq<VarNameId>,
    body: Seq<Instruction<T>>,
    frames: Frames,
    lens: Seq<nat>,
)
    requires
        holds_group_loop(code, at, iters, vars, body),
        iters.len() > 0,
        are_apart(iters, vars),
        are_targets(frames, vars, lens),
    ensures
        shortest(lens) > 0 ==> {
            &&& ran(code, frames, at, iters.len() + 1) == Some(
                (started(frames, iters, vars, iters.len()), (at + 1 + iters.len()) as usize),
            )
            &&& are_cursors(started(frames, iters, vars, iters.len()), iters)
            &&& are_targets(started(frames, iters, vars, iters.len()), vars, lens)
            &&& all_at(started(frames, iters, vars, iters.len()), iters, 0)
            &&& started(frames, iters, vars, iters.len()).drop_last() == frames
        },
        shortest(lens) == 0 ==> exists|j: nat|
            j < iters.len() && #[trigger] ran(code, frames, at, j + 3) == Some(
                (frames, (at + 2 * iters.len() + body.len() + 5) as usize),
            ),
{
    if shortest(lens) > 0 {
        lemma_group_enter_all(code, at, iters, vars, body, frames, lens);
    } else {
        let j = lemma_group_enter_none(code, at, iters, vars, body, frames, lens);
    }
}

/// The lock-step loop whose targets all have a step: see
/// [`lemma_group_enter`].
pub proof fn lemma_group_enter_all<T>(
    code: Seq<Instruction<T>>,
    at: usize,
    iters: Seq<VarNameId>,
    vars: Seq<VarNameId>,
    body: Seq<Instruction<T>>,
    frames: Frames,
    lens: Seq<nat>,
)
    requires
        holds_group_loop(code, at, iters, vars, body),
        iters.len() > 0,
        are_apart(iters, vars),
        are_targets(frames, vars, lens),
        shortest(lens) > 0,
    ensures
        ran(code, frames, at, iters.len() + 1) == Some(
            (started(frames, iters, vars, iters.len()), (at + 1 + iters.len()) as usize),
        ),
        are_cursors(started(frames, iters, vars, iters.len()), iters),
        are_targets(started(frames, iters, vars, iters.len()), vars, lens),
        all_at(started(frames, iters, vars, iters.len()), iters, 0),
        started(frames, iters, vars, iters.len()).drop_last() == frames,
{
    lemma_group_loop_start(code, at, iters, vars, body);
    let end = (at + 2 * iters.len() + body.len() + 4) as usize;
    lemma_all_longer(lens);
    lemma_enter_steps(code, at, iters, vars, end, frames, lens, iters.len());
    lemma_started_all(frames, iters, vars, lens);
}

/// The lock-step loop one of whose targets has no step: see
/// [`lemma_group_enter`].
pub proof fn lemma_group_enter_none<T>(
    code: Seq<Instruction<T>>,
    at: usize,
    iters: Seq<VarNameId>,
    vars: Seq<VarNameId>,
    body: Seq<Instruction<T>>,
    frames: Frames,
    lens: Seq<nat>,
) -> (j: nat)
    requires
        holds_group_loop(code, at, iters, vars, body),
        iters.len() > 0,
        are_apart(iters, vars),
        are_targets(frames, vars, lens),
        shortest(lens) == 0,
    ensures
        j < iters.len(),
        ran(code, frames, at, j + 3) == Some(
            (frames, (at + 2 * iters.len() + body.len() + 5) as usize),
        ),
{
    lemma_group_loop_start(code, at, iters, vars, body);
    let end = (at + 2 * iters.len() + body.len() + 4) as usize;
    assert(lens.len() == iters.len());
    lemma_shortest(lens);
    let j = lemma_first_empty(lens, lens.len());
    lemma_enter_steps(code, at, iters, vars, end, frames, lens, j);
    lemma_enter_one(code, at, iters, vars, end, frames, lens, j);
    lemma_enter_leave(code, at, iters, vars, end, frames, j);
    j
}

/// Where the least of some lengths is not 0, none of them is.
pub proof fn lemma_all_longer(lens: Seq<nat>)
    requires
        lens.len() > 0,
        shortest(lens) > 0,
    ensures
        forall|j: int| 0 <= j < lens.len() ==> lens[j] > 0,
{
    lemma_shortest(lens);
    assert forall|j: int| 0 <= j < lens.len() implies lens[j] > 0 by {
        assert(shortest(lens) <= lens[j]);
    }
}

/// A lock-step loop whose variable `j` finds no step is left with the
/// scopes as they were.
pub proof fn lemma_enter_leave<T>(
    code: Seq<Instruction<T>>,
    at: usize,
    iters: Seq<VarNameId>,
    vars: Seq<VarNameId>,
    end: usize,
    frames: Frames,
    j: nat,
)
    requires
        is_loop_start(code, at, iters, vars, end),
        are_apart(iters, vars),
        j < iters.len(),
        ran(code, frames, at, j + 2) == Some((started(frames, iters, vars, j), end)),
    ensures
        ran(code, frames, at, j + 3) == Some((frames, (end + 1) as usize)),
{
    lemma_loop_start_ends(code, at, iters, vars, end);
    let now = started(frames, iters, vars, j);
    lemma_started_keeps(frames, iters, vars, j);
    lemma_ran_pop(code, frames, at, j + 2, now, end);
}

/// The first of some lengths that is 0, where one of the first `n` is.
pub proof fn lemma_first_empty(lens: Seq<nat>, n: nat) -> (j: nat)
    requires
        n <= lens.len(),
        exists|k: int| 0 <= k < n && #[trigger] lens[k] == 0,
    ensures
        j < n,
        lens[j as int] == 0,
        forall|k: int| 0 <= k < j ==> lens[k] > 0,
    decreases n,
{
    if exists|k: int| 0 <= k < n - 1 && #[trigger] lens[k] == 0 {
        lemma_first_empty(lens, (n - 1) as nat)
    } else {
        let k0 = choose|k: int| 0 <= k < n && #[trigger] lens[k] == 0;
        assert(k0 == n - 1);
        assert forall|k: int| 0 <= k < n - 1 implies lens[k] > 0 by {
            assert(!(lens[k] == 0));
        }
        (n - 1) as nat
    }
}

/// Code that holds a lock-step loop holds the scope of its body: a push in
/// front of the body and a pop behind it.
pub proof fn lemma_group_loop_body<T>(
    code: Seq<Instruction<T>>,
    at: usize,
    iters: Seq<VarNameId>,
    vars: Seq<VarNameId>,
    body: Seq<Instruction<T>>,
)
    requires
        holds_group_loop(code, at, iters, vars, body),
    ensures
        at + 2 * iters.len() + body.len() + 5 <= code.len(),
        code.len() <= usize::MAX,
        code[at + iters.len() + 1] == Instruction::<T>::PushScope,
        code[at + iters.len() + body.len() + 2] == Instruction::<T>::PopScope,
        forall|i: int| 0 <= i < body.len() ==> code[at + iters.len() + 2 + i] == body[i],
{
    reveal(holds_group_loop);
    let n = iters.len() as int;
    let b = body.len() as int;
    let targets = variables(vars);
    let inner = group_loop::<T>(iters, targets, at as int, body);
    lemma_group_loop_code::<T>(iters, targets, at as int, body);
    assert forall|i: int| 0 <= i < 2 * n + b + 5 implies code[at + i] == inner[i] by {
        assert(code.subrange(at as int, at + 2 * n + b + 5)[i] == code[at + i]);
    }
    assert(code[at + (n + 1)] == inner[n + 1]);
    assert(code[at + (n + b + 2)] == inner[n + b + 2]);
    assert forall|i: int| 0 <= i < b implies code[at + n + 2 + i] == body[i] by {
        assert(code[at + (n + 2 + i)] == inner[n + 2 + i]);
    }
}

} // verus!
