//! How often a lock-step loop runs its body.

use super::laws::{
    all_at, are_targets, holds_group_loop, lemma_advanced_all, lemma_group_enter,
    lemma_group_loop_body, lemma_group_next_pass, lemma_started_all, shortest,
};
use crate::program::ids::VarNameId;
use crate::program::instruction::Instruction;
use crate::program::object::{Value, VariableRef};
use crate::program::passes::{
    advanced, are_apart, are_cursors, lemma_advanced_keeps, lemma_ran_none, lemma_ran_pop,
    lemma_ran_push, lemma_ran_then, lemma_started_keeps, started,
};
use crate::program::path::{find_scope, Frames};
use crate::program::semantics::ran;
use vstd::prelude::*;

verus! {

/// The scopes at the start of pass `p` of a lock-step loop whose body
/// brings the scopes back as it found them: the scope of the loop on top of
/// `frames`, with every loop variable bound to a reference to step `p` of
/// its target.
pub open spec fn passed(frames: Frames, iters: Seq<VarNameId>, vars: Seq<VarNameId>, p: nat) -> Frames
    decreases p,
{
    if p == 0 {
        started(frames, iters, vars, iters.len())
    } else {
        advanced(passed(frames, iters, vars, (p - 1) as nat), iters, iters.len())
    }
}

/// Whether the body of the lock-step loop at `at`, its scope included,
/// takes `m` instructions in pass `p` and brings the scopes back as it
/// found them.
pub open spec fn body_returns<T>(
    code: Seq<Instruction<T>>,
    at: usize,
    iters: Seq<VarNameId>,
    vars: Seq<VarNameId>,
    body: Seq<Instruction<T>>,
    frames: Frames,
    m: nat,
    p: nat,
) -> bool {
    ran(code, passed(frames, iters, vars, p), (at + 1 + iters.len()) as usize, m) == Some(
        (passed(frames, iters, vars, p), (at + iters.len() + body.len() + 3) as usize),
    )
}

/// The number of instructions that a lock-step loop of `n` variables takes
/// from its first to the one behind it, where its body takes `m`, its
/// shortest target has `s` steps and variable `j` is the first to find no
/// further step.
pub open spec fn group_steps(n: nat, m: nat, s: nat, j: nat) -> nat {
    if s == 0 {
        j + 3
    } else {
        s * (m + n + 1) + j + 2
    }
}

/// In every pass of a lock-step loop the loop variables all stand at the
/// number of the pass, and the scopes under the scope of the loop are those
/// that the loop found.
pub proof fn lemma_passed(
    frames: Frames,
    iters: Seq<VarNameId>,
    vars: Seq<VarNameId>,
    lens: Seq<nat>,
    p: nat,
)
    requires
        are_apart(iters, vars),
        are_targets(frames, vars, lens),
        p <= usize::MAX,
    ensures
        are_cursors(passed(frames, iters, vars, p), iters),
        are_targets(passed(frames, iters, vars, p), vars, lens),
        all_at(passed(frames, iters, vars, p), iters, p as usize),
        passed(frames, iters, vars, p).drop_last() == frames,
    decreases p,
{
    if p == 0 {
        lemma_started_all(frames, iters, vars, lens);
    } else {
        lemma_passed(frames, iters, vars, lens, (p - 1) as nat);
        lemma_advanced_all(
            passed(frames, iters, vars, (p - 1) as nat),
            iters,
            vars,
            lens,
            (p - 1) as usize,
        );
    }
}

/// In pass `p` of a lock-step loop each loop variable is a reference to
/// step `p` of what it steps over, in the scope that binds that.
pub proof fn lemma_passed_cursor(
    frames: Frames,
    iters: Seq<VarNameId>,
    vars: Seq<VarNameId>,
    lens: Seq<nat>,
    p: nat,
    k: int,
)
    requires
        are_apart(iters, vars),
        are_targets(frames, vars, lens),
        p <= usize::MAX,
        0 <= k < iters.len(),
    ensures
        passed(frames, iters, vars, p).last()[iters[k].0] == Value::Ref(
            VariableRef {
                scope: find_scope(frames, vars[k].0)->0 as usize,
                target: vars[k],
                offset: p as usize,
            },
        ),
    decreases p,
{
    if p == 0 {
        lemma_started_keeps(frames, iters, vars, iters.len());
    } else {
        let before = passed(frames, iters, vars, (p - 1) as nat);
        lemma_passed_cursor(frames, iters, vars, lens, (p - 1) as nat, k);
        lemma_passed(frames, iters, vars, lens, (p - 1) as nat);
        lemma_advanced_keeps(before, iters, iters.len());
    }
}

/// A lock-step loop reaches its body for pass `p`, for each `p` less than
/// the length of its shortest target, provided that the body brought the
/// scopes back in every pass before.
pub proof fn lemma_group_reaches_pass<T>(
    code: Seq<Instruction<T>>,
    at: usize,
    iters: Seq<VarNameId>,
    vars: Seq<VarNameId>,
    body: Seq<Instruction<T>>,
    frames: Frames,
    lens: Seq<nat>,
    m: nat,
    p: nat,
)
    requires
        holds_group_loop(code, at, iters, vars, body),
        iters.len() > 0,
        are_apart(iters, vars),
        are_targets(frames, vars, lens),
        p < shortest(lens),
        p < usize::MAX,
        forall|q: nat| q < p ==> body_returns(code, at, iters, vars, body, frames, m, q),
    ensures
        ran(code, frames, at, iters.len() + 1 + p * (m + iters.len() + 1)) == Some(
            (passed(frames, iters, vars, p), (at + 1 + iters.len()) as usize),
        ),
    decreases p,
{
    let n = iters.len();
    if p == 0 {
        lemma_group_enter(code, at, iters, vars, body, frames, lens);
        assert(p * (m + n + 1) == 0) by (nonlinear_arith)
            requires
                p == 0,
        ;
    } else {
        let q = (p - 1) as nat;
        let before = passed(frames, iters, vars, q);
        let top = (at + 1 + n) as usize;
        let steps = (at + n + body.len() + 3) as usize;
        lemma_group_reaches_pass(code, at, iters, vars, body, frames, lens, m, q);
        assert(body_returns(code, at, iters, vars, body, frames, m, q));
        lemma_passed(frames, iters, vars, lens, q);
        lemma_group_next_pass(code, at, iters, vars, body, before, lens, q as usize);
        let a = n + 1 + q * (m + n + 1);
        lemma_ran_then(code, frames, at, a, before, top, m);
        lemma_ran_then(code, frames, at, a + m, before, steps, n + 1);
        assert(a + m + (n + 1) == n + 1 + p * (m + n + 1)) by (nonlinear_arith)
            requires
                a == n + 1 + q * (m + n + 1),
                q == p - 1,
        ;
    }
}

/// A lock-step loop makes as many passes as its shortest target is long,
/// and leaves the scopes as it found them.
///
/// Where the body, its scope included, takes `m` instructions in every pass
/// and brings the scopes back as it found them, the loop has reached the
/// instruction behind it, with the scopes that it started from, after
/// exactly the instructions of that many passes: those that start the
/// variables, the body and the steps of the variables once for each step of
/// the shortest target, and those that find a variable without a further
/// step and pop the scope of the loop.
pub proof fn lemma_group_run<T>(
    code: Seq<Instruction<T>>,
    at: usize,
    iters: Seq<VarNameId>,
    vars: Seq<VarNameId>,
    body: Seq<Instruction<T>>,
    frames: Frames,
    lens: Seq<nat>,
    m: nat,
)
    requires
        holds_group_loop(code, at, iters, vars, body),
        iters.len() > 0,
        are_apart(iters, vars),
        are_targets(frames, vars, lens),
        shortest(lens) <= usize::MAX,
        forall|q: nat|
            q < shortest(lens) ==> body_returns(code, at, iters, vars, body, frames, m, q),
    ensures
        exists|j: nat|
            j < iters.len() && #[trigger] ran(
                code,
                frames,
                at,
                group_steps(iters.len(), m, shortest(lens), j),
            ) == Some((frames, (at + 2 * iters.len() + body.len() + 5) as usize)),
{
    let n = iters.len();
    let s = shortest(lens);
    let end = (at + 2 * n + body.len() + 5) as usize;
    if s == 0 {
        lemma_group_enter(code, at, iters, vars, body, frames, lens);
        let j = choose|j: nat|
            j < iters.len() && #[trigger] ran(code, frames, at, j + 3) == Some((frames, end));
        assert(group_steps(n, m, s, j) == j + 3);
    } else {
        let p = (s - 1) as nat;
        let last = passed(frames, iters, vars, p);
        let top = (at + 1 + n) as usize;
        let steps = (at + n + body.len() + 3) as usize;
        lemma_group_reaches_pass(code, at, iters, vars, body, frames, lens, m, p);
        assert(body_returns(code, at, iters, vars, body, frames, m, p));
        lemma_passed(frames, iters, vars, lens, p);
        lemma_group_next_pass(code, at, iters, vars, body, last, lens, p as usize);
        let j = choose|j: nat|
            j < iters.len() && #[trigger] ran(code, last, steps, j + 2) == Some(
                (last.drop_last(), end),
            );
        let a = n + 1 + p * (m + n + 1);
        lemma_ran_then(code, frames, at, a, last, top, m);
        lemma_ran_then(code, frames, at, a + m, last, steps, j + 2);
        assert(a + m + (j + 2) == s * (m + n + 1) + j + 2) by (nonlinear_arith)
            requires
                a == n + 1 + p * (m + n + 1),
                p == s - 1,
        ;
        assert(group_steps(n, m, s, j) == a + m + (j + 2));
    }
}

/// A lock-step loop with nothing in its body only pushes and pops the scope
/// of the body in each pass, so it makes as many passes as its shortest
/// target is long and leaves the scopes as it found them.
pub proof fn lemma_empty_group_run<T>(
    code: Seq<Instruction<T>>,
    at: usize,
    iters: Seq<VarNameId>,
    vars: Seq<VarNameId>,
    frames: Frames,
    lens: Seq<nat>,
)
    requires
        holds_group_loop(code, at, iters, vars, Seq::<Instruction<T>>::empty()),
        iters.len() > 0,
        are_apart(iters, vars),
        are_targets(frames, vars, lens),
        shortest(lens) <= usize::MAX,
    ensures
        exists|j: nat|
            j < iters.len() && #[trigger] ran(
                code,
                frames,
                at,
                group_steps(iters.len(), 2, shortest(lens), j),
            ) == Some((frames, (at + 2 * iters.len() + 5) as usize)),
{
    let body = Seq::<Instruction<T>>::empty();
    let top = (at + 1 + iters.len()) as usize;
    lemma_group_loop_body(code, at, iters, vars, body);
    assert forall|q: nat| q < shortest(lens) implies body_returns(
        code,
        at,
        iters,
        vars,
        body,
        frames,
        2,
        q,
    ) by {
        let now = passed(frames, iters, vars, q);
        lemma_ran_none(code, now, top);
        lemma_ran_push(code, now, top, 0, now, top);
        let inner = now.push(Map::empty());
        lemma_ran_pop(code, now, top, 1, inner, (top + 1) as usize);
        assert(inner.drop_last() =~= now);
    }
    lemma_group_run(code, at, iters, vars, body, frames, lens, 2);
}

} // verus!
