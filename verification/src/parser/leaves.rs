//! Loops around instructions that are left to the executor.

use super::counts::{
    body_returns, group_steps, lemma_group_reaches_pass, lemma_group_run, lemma_passed, passed,
};
use super::laws::{
    all_at, are_targets, holds_group_loop, lemma_group_loop_body, lemma_group_loop_code, shortest,
    variables,
};
use super::nests::{
    body_keeps, holds_combination_loop, lemma_combination_reach, lemma_combination_run,
    nested_passed, nested_reach, nested_steps,
};
use super::{combination_loop, group_loop, pairs};
use crate::bed::expr::IterTargetExpr;
use crate::program::ids::{InstructionId, VarNameId};
use crate::program::instruction::Instruction;
use crate::program::passes::{
    are_apart, lemma_goto, lemma_ran_next, lemma_ran_none, lemma_ran_pop, lemma_ran_push,
    lemma_ran_then,
};
use crate::program::path::Frames;
use crate::program::quiet::skipping;
use crate::program::semantics::{after, is_delegated, ran};
use vstd::prelude::*;

verus! {

/// Two lock-step loops that differ in their bodies alone, which are of one
/// length, differ there alone, and leave nothing but their bodies to the
/// executor.
pub proof fn lemma_group_frame<T>(
    iters: Seq<VarNameId>,
    targets: Seq<IterTargetExpr>,
    at: int,
    body: Seq<Instruction<T>>,
    other: Seq<Instruction<T>>,
)
    requires
        body.len() == other.len(),
    ensures
        ({
            let n = pairs(iters, targets) as int;
            let b = body.len() as int;
            let a = group_loop::<T>(iters, targets, at, body);
            let c = group_loop::<T>(iters, targets, at, other);
            &&& a.len() == 2 * n + b + 5
            &&& c.len() == 2 * n + b + 5
            &&& forall|i: int|
                0 <= i < 2 * n + b + 5 ==> if n + 2 <= i < n + 2 + b {
                    a[i] == body[i - n - 2] && c[i] == other[i - n - 2]
                } else {
                    #[trigger] a[i] == c[i] && !is_delegated(a[i])
                }
        }),
{
    let n = pairs(iters, targets) as int;
    let b = body.len() as int;
    let a = group_loop::<T>(iters, targets, at, body);
    let c = group_loop::<T>(iters, targets, at, other);
    lemma_group_loop_code::<T>(iters, targets, at, body);
    lemma_group_loop_code::<T>(iters, targets, at, other);
    assert forall|i: int| 0 <= i < 2 * n + b + 5 implies if n + 2 <= i < n + 2 + b {
        a[i] == body[i - n - 2] && c[i] == other[i - n - 2]
    } else {
        #[trigger] a[i] == c[i] && !is_delegated(a[i])
    } by {
        if i == 0 {
        } else if i < n + 1 {
            let k = i - 1;
            assert(a[1 + k] == c[1 + k]);
            assert(a[1 + k] is StartIter);
        } else if i == n + 1 {
        } else if i < n + 2 + b {
            let k = i - n - 2;
            assert(a[n + 2 + k] == body[k]);
            assert(c[n + 2 + k] == other[k]);
        } else if i == n + b + 2 {
        } else if i < 2 * n + b + 3 {
            let k = i - n - b - 3;
            assert(a[n + b + 3 + k] == c[n + b + 3 + k]);
            assert(a[n + b + 3 + k] is Increment);
        } else if i == 2 * n + b + 3 {
        } else {
        }
    }
}

/// The body of the loop at `at`, `lead` instructions on, with a jump to the
/// next instruction in place of each instruction that is left to the
/// executor.
pub open spec fn skipping_body<T>(code: Seq<Instruction<T>>, at: usize, lead: nat, len: nat) -> Seq<
    Instruction<T>,
> {
    skipping(code).subrange(at + lead, at + lead + len)
}

/// Code that holds a lock-step loop holds it still with jumps in place of
/// what is left to the executor: only the body changes.
pub proof fn lemma_skipping_group<T>(
    code: Seq<Instruction<T>>,
    at: usize,
    iters: Seq<VarNameId>,
    vars: Seq<VarNameId>,
    body: Seq<Instruction<T>>,
)
    requires
        holds_group_loop(code, at, iters, vars, body),
    ensures
        holds_group_loop(
            skipping(code),
            at,
            iters,
            vars,
            skipping_body(code, at, iters.len() + 2, body.len()),
        ),
{
    reveal(holds_group_loop);
    let n = iters.len() as int;
    let b = body.len() as int;
    let other = skipping_body(code, at, iters.len() + 2, body.len());
    let targets = variables(vars);
    let a = group_loop::<T>(iters, targets, at as int, body);
    let c = group_loop::<T>(iters, targets, at as int, other);
    lemma_group_frame::<T>(iters, targets, at as int, body, other);
    let quiet = skipping(code).subrange(at as int, at + 2 * n + b + 5);
    assert forall|i: int| 0 <= i < 2 * n + b + 5 implies quiet[i] == c[i] by {
        assert(code.subrange(at as int, at + 2 * n + b + 5)[i] == code[at + i]);
        if n + 2 <= i < n + 2 + b {
            assert(other[i - n - 2] == skipping(code)[at + n + 2 + (i - n - 2)]);
        } else {
            assert(a[i] == c[i] && !is_delegated(a[i]));
        }
    }
    assert(quiet =~= c);
}

/// Whether the `len` instructions of `code` from `from` on are all left to
/// the executor.
pub open spec fn are_delegated<T>(code: Seq<Instruction<T>>, from: usize, len: nat) -> bool {
    &&& from + len <= code.len()
    &&& code.len() <= usize::MAX
    &&& forall|i: int| from <= i < from + len ==> is_delegated(#[trigger] code[i])
}

/// With jumps in their place, instructions that are left to the executor,
/// one behind the other, lead from the first to the one behind the last
/// and leave the scopes as they are.
pub proof fn lemma_skipping_run<T>(code: Seq<Instruction<T>>, frames: Frames, from: usize, len: nat)
    requires
        are_delegated(code, from, len),
    ensures
        ran(skipping(code), frames, from, len) == Some((frames, (from + len) as usize)),
    decreases len,
{
    if len == 0 {
        lemma_ran_none(skipping(code), frames, from);
    } else {
        let last = (from + len - 1) as usize;
        lemma_skipping_run(code, frames, from, (len - 1) as nat);
        lemma_ran_next(skipping(code), frames, from, (len - 1) as nat, frames, last);
        assert(is_delegated(code[last as int]));
        assert(skipping(code)[last as int] == Instruction::<T>::Goto(InstructionId(after(last))));
        lemma_goto::<T>(frames, last, after(last));
    }
}

/// The body of a lock-step loop that holds nothing but instructions that
/// are left to the executor takes, with jumps in their place, one
/// instruction for each of them and two for its scope, and brings the
/// scopes back as it found them.
pub proof fn lemma_command_body_returns<T>(
    code: Seq<Instruction<T>>,
    at: usize,
    iters: Seq<VarNameId>,
    vars: Seq<VarNameId>,
    body: Seq<Instruction<T>>,
    frames: Frames,
    q: nat,
)
    requires
        holds_group_loop(code, at, iters, vars, body),
        forall|i: int| 0 <= i < body.len() ==> is_delegated(#[trigger] body[i]),
    ensures
        body_returns(
            skipping(code),
            at,
            iters,
            vars,
            skipping_body(code, at, iters.len() + 2, body.len()),
            frames,
            body.len() + 2,
            q,
        ),
{
    let n = iters.len();
    let b = body.len();
    let other = skipping_body(code, at, n + 2, b);
    let quiet = skipping(code);
    let top = (at + 1 + n) as usize;
    let first = (at + n + 2) as usize;
    lemma_skipping_group(code, at, iters, vars, body);
    lemma_group_loop_body(code, at, iters, vars, body);
    lemma_group_loop_body(quiet, at, iters, vars, other);
    assert(are_delegated(code, first, b)) by {
        assert forall|i: int| first <= i < first + b implies is_delegated(#[trigger] code[i]) by {
            assert(code[at + n + 2 + (i - first)] == body[i - first]);
        }
    }
    let now = passed(frames, iters, vars, q);
    let inner = now.push(Map::empty());
    lemma_ran_none(quiet, now, top);
    lemma_ran_push(quiet, now, top, 0, now, top);
    lemma_skipping_run(code, inner, first, b);
    lemma_ran_then(quiet, now, top, 1, inner, first, b);
    lemma_ran_pop(quiet, now, top, 1 + b, inner, (first + b) as usize);
    assert(inner.drop_last() =~= now);
}

/// The number of instructions that a lock-step loop of `n` variables, around
/// `b` instructions that are left to the executor, takes to reach the
/// `i`-th of them in pass `p`.
pub open spec fn group_visit(n: nat, b: nat, p: nat, i: nat) -> nat {
    n + 1 + p * (b + 2 + n + 1) + 1 + i
}

/// In pass `p` of a lock-step loop around instructions that are all left to
/// the executor, each of them is reached with every loop variable at the
/// offset `p`, in the scope of the body, which is empty then, on top of the
/// scope of the loop.
///
/// Stated, as [`lemma_command_group_run`] is, of the code with jumps in
/// place of those instructions.
pub proof fn lemma_command_group_visit<T>(
    code: Seq<Instruction<T>>,
    at: usize,
    iters: Seq<VarNameId>,
    vars: Seq<VarNameId>,
    body: Seq<Instruction<T>>,
    frames: Frames,
    lens: Seq<nat>,
    p: nat,
    i: nat,
)
    requires
        holds_group_loop(code, at, iters, vars, body),
        forall|i: int| 0 <= i < body.len() ==> is_delegated(#[trigger] body[i]),
        iters.len() > 0,
        are_apart(iters, vars),
        are_targets(frames, vars, lens),
        p < shortest(lens),
        p < usize::MAX,
        i < body.len(),
    ensures
        ran(skipping(code), frames, at, group_visit(iters.len(), body.len(), p, i)) == Some(
            (
                passed(frames, iters, vars, p).push(Map::empty()),
                (at + iters.len() + 2 + i) as usize,
            ),
        ),
        all_at(passed(frames, iters, vars, p), iters, p as usize),
        passed(frames, iters, vars, p).drop_last() == frames,
{
    let n = iters.len();
    let b = body.len();
    let other = skipping_body(code, at, n + 2, b);
    let quiet = skipping(code);
    let top = (at + 1 + n) as usize;
    let first = (at + n + 2) as usize;
    let m = b + 2;
    let now = passed(frames, iters, vars, p);
    let inner = now.push(Map::empty());
    lemma_skipping_group(code, at, iters, vars, body);
    lemma_group_loop_body(code, at, iters, vars, body);
    lemma_group_loop_body(quiet, at, iters, vars, other);
    assert forall|q: nat| q < p implies body_returns(quiet, at, iters, vars, other, frames, m, q) by {
        lemma_command_body_returns(code, at, iters, vars, body, frames, q);
    }
    lemma_group_reaches_pass(quiet, at, iters, vars, other, frames, lens, m, p);
    lemma_passed(frames, iters, vars, lens, p);
    let reached = n + 1 + p * (m + n + 1);
    lemma_ran_push(quiet, frames, at, reached, now, top);
    assert(are_delegated(code, first, i)) by {
        assert forall|k: int| first <= k < first + i implies is_delegated(#[trigger] code[k]) by {
            assert(code[at + n + 2 + (k - first)] == body[k - first]);
        }
    }
    lemma_skipping_run(code, inner, first, i);
    lemma_ran_then(quiet, frames, at, reached + 1, inner, first, i);
    assert(group_visit(n, b, p, i) == reached + 1 + i);
}

/// A lock-step loop around instructions that are all left to the executor
/// hands each of them over once in each pass, and makes as many passes as
/// its shortest target is long.
///
/// Stated of the code with jumps in place of those instructions, which by
/// [`crate::program::quiet::lemma_quiet_trace`] is what a run comes to in
/// which the executor leaves the scopes as they are: the loop takes the
/// instructions of that many passes, each with the scope of the body and
/// one for each instruction in it, and leaves the scopes as it found them.
pub proof fn lemma_command_group_run<T>(
    code: Seq<Instruction<T>>,
    at: usize,
    iters: Seq<VarNameId>,
    vars: Seq<VarNameId>,
    body: Seq<Instruction<T>>,
    frames: Frames,
    lens: Seq<nat>,
)
    requires
        holds_group_loop(code, at, iters, vars, body),
        forall|i: int| 0 <= i < body.len() ==> is_delegated(#[trigger] body[i]),
        iters.len() > 0,
        are_apart(iters, vars),
        are_targets(frames, vars, lens),
        shortest(lens) <= usize::MAX,
    ensures
        exists|j: nat|
            j < iters.len() && #[trigger] ran(
                skipping(code),
                frames,
                at,
                group_steps(iters.len(), body.len() + 2, shortest(lens), j),
            ) == Some((frames, (at + 2 * iters.len() + body.len() + 5) as usize)),
{
    let n = iters.len();
    let b = body.len();
    let other = skipping_body(code, at, n + 2, b);
    let quiet = skipping(code);
    let m = b + 2;
    lemma_skipping_group(code, at, iters, vars, body);
    lemma_group_loop_body(code, at, iters, vars, body);
    assert(other.len() == b);
    assert forall|q: nat| q < shortest(lens) implies body_returns(
        quiet,
        at,
        iters,
        vars,
        other,
        frames,
        m,
        q,
    ) by {
        lemma_command_body_returns(code, at, iters, vars, body, frames, q);
    }
    lemma_group_run(quiet, at, iters, vars, other, frames, lens, m);
}

/// Two nested loops that differ in their bodies alone, which are of one
/// length, differ there alone, and leave nothing but their bodies to the
/// executor.
pub proof fn lemma_combination_frame<T>(
    iters: Seq<VarNameId>,
    targets: Seq<IterTargetExpr>,
    at: int,
    body: Seq<Instruction<T>>,
    other: Seq<Instruction<T>>,
)
    requires
        body.len() == other.len(),
    ensures
        ({
            let n = pairs(iters, targets) as int;
            let b = body.len() as int;
            let a = combination_loop::<T>(iters, targets, at, body);
            let c = combination_loop::<T>(iters, targets, at, other);
            &&& a.len() == 5 * n + b + 2
            &&& c.len() == 5 * n + b + 2
            &&& forall|i: int|
                0 <= i < 5 * n + b + 2 ==> if 2 * n + 1 <= i < 2 * n + 1 + b {
                    a[i] == body[i - 2 * n - 1] && c[i] == other[i - 2 * n - 1]
                } else {
                    #[trigger] a[i] == c[i] && !is_delegated(a[i])
                }
        }),
    decreases iters.len(),
{
    let n = pairs(iters, targets) as int;
    let b = body.len() as int;
    let a = combination_loop::<T>(iters, targets, at, body);
    let c = combination_loop::<T>(iters, targets, at, other);
    if iters.len() == 0 || targets.len() == 0 {
        assert forall|i: int| 0 <= i < b + 2 implies if 1 <= i < 1 + b {
            a[i] == body[i - 1] && c[i] == other[i - 1]
        } else {
            #[trigger] a[i] == c[i] && !is_delegated(a[i])
        } by {}
    } else {
        let inner = combination_loop::<T>(iters.skip(1), targets.skip(1), at + 2, body);
        let inside = combination_loop::<T>(iters.skip(1), targets.skip(1), at + 2, other);
        lemma_combination_frame::<T>(iters.skip(1), targets.skip(1), at + 2, body, other);
        assert(pairs(iters.skip(1), targets.skip(1)) == n - 1);
        assert(inner.len() == inside.len());
        assert forall|i: int| 0 <= i < 5 * n + b + 2 implies if 2 * n + 1 <= i < 2 * n + 1 + b {
            a[i] == body[i - 2 * n - 1] && c[i] == other[i - 2 * n - 1]
        } else {
            #[trigger] a[i] == c[i] && !is_delegated(a[i])
        } by {
            if 2 <= i < 2 + inner.len() {
                assert(a[i] == inner[i - 2]);
                assert(c[i] == inside[i - 2]);
                if !(2 * n + 1 <= i < 2 * n + 1 + b) {
                    assert(inner[i - 2] == inside[i - 2] && !is_delegated(inner[i - 2]));
                }
            }
        }
    }
}

/// Code that holds a nested loop holds it still with jumps in place of what
/// is left to the executor: only the body changes.
pub proof fn lemma_skipping_combination<T>(
    code: Seq<Instruction<T>>,
    at: usize,
    iters: Seq<VarNameId>,
    vars: Seq<VarNameId>,
    body: Seq<Instruction<T>>,
)
    requires
        holds_combination_loop(code, at, iters, vars, body),
    ensures
        holds_combination_loop(
            skipping(code),
            at,
            iters,
            vars,
            skipping_body(code, at, 2 * iters.len() + 1, body.len()),
        ),
        code.len() <= usize::MAX,
        at + 5 * iters.len() + body.len() + 2 <= code.len(),
        forall|i: int| 0 <= i < body.len() ==> code[at + 2 * iters.len() + 1 + i] == body[i],
{
    reveal(holds_combination_loop);
    let n = iters.len() as int;
    let b = body.len() as int;
    let other = skipping_body(code, at, (2 * n + 1) as nat, body.len());
    let targets = variables(vars);
    let a = combination_loop::<T>(iters, targets, at as int, body);
    let c = combination_loop::<T>(iters, targets, at as int, other);
    lemma_combination_frame::<T>(iters, targets, at as int, body, other);
    assert(pairs(iters, targets) == n);
    let quiet = skipping(code).subrange(at as int, at + 5 * n + b + 2);
    assert forall|i: int| 0 <= i < 5 * n + b + 2 implies quiet[i] == c[i] by {
        assert(code.subrange(at as int, at + 5 * n + b + 2)[i] == code[at + i]);
        if 2 * n + 1 <= i < 2 * n + 1 + b {
            assert(other[i - 2 * n - 1] == skipping(code)[at + 2 * n + 1 + (i - 2 * n - 1)]);
        } else {
            assert(a[i] == c[i] && !is_delegated(a[i]));
        }
    }
    assert(quiet =~= c);
    assert forall|i: int| 0 <= i < b implies code[at + 2 * n + 1 + i] == body[i] by {
        let k = 2 * n + 1 + i;
        assert(code.subrange(at as int, at + 5 * n + b + 2)[k] == code[at + k]);
        assert(a[k] == body[k - 2 * n - 1]);
    }
}

/// A nested loop around instructions that are all left to the executor
/// hands each of them over once for each combination of one step of each
/// target.
///
/// Stated of the code with jumps in place of those instructions, which by
/// [`crate::program::quiet::lemma_quiet_trace`] is what a run comes to in
/// which the executor leaves the scopes as they are: the loop takes
/// [`nested_steps`] instructions, of which, by
/// [`super::nests::lemma_nested_steps_product`], one for each instruction of
/// the body and each combination are those of the body, and leaves the
/// scopes as it found them.
pub proof fn lemma_command_combination_run<T>(
    code: Seq<Instruction<T>>,
    at: usize,
    iters: Seq<VarNameId>,
    vars: Seq<VarNameId>,
    body: Seq<Instruction<T>>,
    frames: Frames,
    lens: Seq<nat>,
)
    requires
        holds_combination_loop(code, at, iters, vars, body),
        forall|i: int| 0 <= i < body.len() ==> is_delegated(#[trigger] body[i]),
        are_apart(iters, vars),
        are_targets(frames, vars, lens),
        forall|k: int| 0 <= k < lens.len() ==> lens[k] <= usize::MAX,
    ensures
        ran(skipping(code), frames, at, nested_steps(lens, body.len())) == Some(
            (frames, (at + 5 * iters.len() + body.len() + 2) as usize),
        ),
{
    let n = iters.len();
    let b = body.len();
    let other = skipping_body(code, at, 2 * n + 1, b);
    let quiet = skipping(code);
    let first = (at + 2 * n + 1) as usize;
    lemma_skipping_combination(code, at, iters, vars, body);
    assert(are_delegated(code, first, b)) by {
        assert forall|i: int| first <= i < first + b implies is_delegated(#[trigger] code[i]) by {
            assert(code[at + 2 * n + 1 + (i - first)] == body[i - first]);
        }
    }
    assert(body_keeps(quiet, first, (first + b) as usize, b)) by {
        reveal(body_keeps);
        assert forall|now: Frames| #[trigger]
            ran(quiet, now, first, b) == Some((now, (first + b) as usize)) by {
            lemma_skipping_run(code, now, first, b);
        }
    }
    lemma_combination_run(quiet, at, iters, vars, other, frames, lens, b);
}

/// For each combination of one step of each target, a nested loop around
/// instructions that are all left to the executor reaches each of them with
/// every loop variable at its step of that combination; the combinations
/// come in the order of their offsets, the last variable stepping fastest.
///
/// Stated, as [`lemma_command_combination_run`] is, of the code with jumps
/// in place of those instructions: the `i`-th of them is reached for the
/// combination `ps` after [`nested_reach`] instructions and `i` more, in the
/// scopes [`nested_passed`], of which
/// [`super::nests::lemma_nested_passed`] says what they hold.
pub proof fn lemma_command_combination_visit<T>(
    code: Seq<Instruction<T>>,
    at: usize,
    iters: Seq<VarNameId>,
    vars: Seq<VarNameId>,
    body: Seq<Instruction<T>>,
    frames: Frames,
    lens: Seq<nat>,
    ps: Seq<nat>,
    i: nat,
)
    requires
        holds_combination_loop(code, at, iters, vars, body),
        forall|i: int| 0 <= i < body.len() ==> is_delegated(#[trigger] body[i]),
        are_apart(iters, vars),
        are_targets(frames, vars, lens),
        forall|k: int| 0 <= k < lens.len() ==> lens[k] <= usize::MAX,
        ps.len() == lens.len(),
        forall|k: int| 0 <= k < ps.len() ==> ps[k] < lens[k],
        i < body.len(),
    ensures
        ran(skipping(code), frames, at, nested_reach(lens, ps, body.len()) + i) == Some(
            (nested_passed(frames, iters, vars, ps), (at + 2 * iters.len() + 1 + i) as usize),
        ),
{
    let n = iters.len();
    let b = body.len();
    let other = skipping_body(code, at, 2 * n + 1, b);
    let quiet = skipping(code);
    let first = (at + 2 * n + 1) as usize;
    let now = nested_passed(frames, iters, vars, ps);
    lemma_skipping_combination(code, at, iters, vars, body);
    assert(are_delegated(code, first, b)) by {
        assert forall|k: int| first <= k < first + b implies is_delegated(#[trigger] code[k]) by {
            assert(code[at + 2 * n + 1 + (k - first)] == body[k - first]);
        }
    }
    assert(are_delegated(code, first, i));
    assert(body_keeps(quiet, first, (first + b) as usize, b)) by {
        reveal(body_keeps);
        assert forall|any: Frames| #[trigger]
            ran(quiet, any, first, b) == Some((any, (first + b) as usize)) by {
            lemma_skipping_run(code, any, first, b);
        }
    }
    lemma_combination_reach(quiet, at, iters, vars, other, frames, lens, b, ps);
    lemma_skipping_run(code, now, first, i);
    lemma_ran_then(quiet, frames, at, nested_reach(lens, ps, b), now, first, i);
}

} // verus!
