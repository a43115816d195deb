//! A nested loop as lock-step loops of one variable each, one inside the
//! other, and how often it runs its body.

use super::counts::{
    body_returns, group_steps, lemma_group_reaches_pass, lemma_group_run, lemma_passed,
    lemma_passed_cursor, passed,
};
use super::laws::{are_targets, holds_group_loop, shortest, variables};
use super::{combination_loop, group_loop, increments, pairs, starts};
use crate::bed::expr::IterTargetExpr;
use crate::program::ids::VarNameId;
use crate::program::instruction::Instruction;
use crate::program::passes::{
    are_apart, lemma_ran_none, lemma_ran_pop, lemma_ran_push, lemma_ran_then,
    lemma_started_keeps, lemma_target_kept, started,
};
use crate::program::object::{Value, VariableRef};
use crate::program::path::{find_scope, Frames};
use crate::program::semantics::{iter_len, ran};
use vstd::prelude::*;

verus! {

/// The code without its first and its last instruction.
pub open spec fn middle<T>(code: Seq<Instruction<T>>) -> Seq<Instruction<T>> {
    code.subrange(1, code.len() - 1)
}

/// The code of a nested loop stands in a scope of its own, and has five
/// instructions for each variable besides its body.
pub proof fn lemma_combination_ends<T>(
    iters: Seq<VarNameId>,
    targets: Seq<IterTargetExpr>,
    at: int,
    body: Seq<Instruction<T>>,
)
    ensures
        ({
            let code = combination_loop::<T>(iters, targets, at, body);
            &&& code.len() == 5 * pairs(iters, targets) + body.len() + 2
            &&& code[0] == Instruction::<T>::PushScope
            &&& code[code.len() - 1] == Instruction::<T>::PopScope
            &&& pairs(iters, targets) == 0 ==> middle(code) == body
        }),
    decreases iters.len(),
{
    let code = combination_loop::<T>(iters, targets, at, body);
    if iters.len() == 0 || targets.len() == 0 {
        assert(middle(code) =~= body);
    } else {
        lemma_combination_ends::<T>(iters.skip(1), targets.skip(1), at + 2, body);
    }
}

/// A nested loop is the lock-step loop of its first variable alone, with
/// the nested loop of the other variables for its body.
pub proof fn lemma_combination_unfold<T>(
    iters: Seq<VarNameId>,
    targets: Seq<IterTargetExpr>,
    at: int,
    body: Seq<Instruction<T>>,
)
    requires
        iters.len() > 0,
        targets.len() > 0,
    ensures
        combination_loop::<T>(iters, targets, at, body) == group_loop::<T>(
            seq![iters[0]],
            seq![targets[0]],
            at,
            middle(combination_loop::<T>(iters.skip(1), targets.skip(1), at + 2, body)),
        ),
{
    let inner = combination_loop::<T>(iters.skip(1), targets.skip(1), at + 2, body);
    lemma_combination_ends::<T>(iters.skip(1), targets.skip(1), at + 2, body);
    let one = seq![iters[0]];
    let first = seq![targets[0]];
    let end = at + inner.len() + 4;
    assert(pairs(one, first) == 1);
    assert(inner =~= seq![Instruction::<T>::PushScope] + middle(inner) + seq![
        Instruction::<T>::PopScope,
    ]);
    assert(starts::<T>(one, first, end) =~= seq![
        Instruction::<T>::StartIter {
            target: targets[0],
            iter: iters[0],
            jump: crate::program::ids::InstructionId(end as usize),
        },
    ]);
    assert(increments::<T>(one, first, end) =~= seq![
        Instruction::<T>::Increment {
            target: targets[0].target(),
            iter: iters[0],
            jump: crate::program::ids::InstructionId(end as usize),
        },
    ]);
    assert(combination_loop::<T>(iters, targets, at, body) =~= group_loop::<T>(
        one,
        first,
        at,
        middle(inner),
    ));
}

/// Whether `code` holds at `at` the nested loop over the variables `vars`
/// with the loop variables `iters` and the body `body`.
#[verifier::opaque]
pub open spec fn holds_combination_loop<T>(
    code: Seq<Instruction<T>>,
    at: usize,
    iters: Seq<VarNameId>,
    vars: Seq<VarNameId>,
    body: Seq<Instruction<T>>,
) -> bool {
    &&& iters.len() == vars.len()
    &&& code.len() <= usize::MAX
    &&& at + 5 * iters.len() + body.len() + 2 <= code.len()
    &&& code.subrange(at as int, at + 5 * iters.len() + body.len() + 2) == combination_loop::<T>(
        iters,
        variables(vars),
        at as int,
        body,
    )
}

/// What was compiled as a nested loop behind the code `before`, with the
/// code `rest` behind it, holds that loop where `before` ends.
pub proof fn lemma_compiled_combination_loop<T>(
    before: Seq<Instruction<T>>,
    iters: Seq<VarNameId>,
    vars: Seq<VarNameId>,
    body: Seq<Instruction<T>>,
    rest: Seq<Instruction<T>>,
)
    requires
        iters.len() == vars.len(),
        before.len() + 5 * iters.len() + body.len() + 2 + rest.len() <= usize::MAX,
    ensures
        holds_combination_loop(
            before + combination_loop::<T>(iters, variables(vars), before.len() as int, body)
                + rest,
            before.len() as usize,
            iters,
            vars,
            body,
        ),
{
    reveal(holds_combination_loop);
    let inner = combination_loop::<T>(iters, variables(vars), before.len() as int, body);
    let code = before + inner + rest;
    lemma_combination_ends::<T>(iters, variables(vars), before.len() as int, body);
    assert(code.subrange(before.len() as int, (before.len() + inner.len()) as int) =~= inner);
}

/// Code that holds a nested loop holds the lock-step loop of its first
/// variable, and inside it, two instructions on, the nested loop of the
/// other variables.
pub proof fn lemma_combination_nests<T>(
    code: Seq<Instruction<T>>,
    at: usize,
    iters: Seq<VarNameId>,
    vars: Seq<VarNameId>,
    body: Seq<Instruction<T>>,
)
    requires
        holds_combination_loop(code, at, iters, vars, body),
        iters.len() > 0,
    ensures
        at + 2 <= usize::MAX,
        holds_group_loop(
            code,
            at,
            seq![iters[0]],
            seq![vars[0]],
            middle(combination_loop::<T>(iters.skip(1), variables(vars.skip(1)), at + 2, body)),
        ),
        holds_combination_loop(code, (at + 2) as usize, iters.skip(1), vars.skip(1), body),
        middle(combination_loop::<T>(iters.skip(1), variables(vars.skip(1)), at + 2, body)).len()
            == 5 * (iters.len() - 1) + body.len(),
{
    reveal(holds_combination_loop);
    reveal(holds_group_loop);
    let n = iters.len() as int;
    let b = body.len() as int;
    let targets = variables(vars);
    assert(targets.skip(1) =~= variables(vars.skip(1)));
    assert(seq![targets[0]] =~= variables(seq![vars[0]]));
    lemma_combination_unfold::<T>(iters, targets, at as int, body);
    lemma_combination_ends::<T>(iters.skip(1), targets.skip(1), at + 2, body);
    let inner = combination_loop::<T>(iters.skip(1), targets.skip(1), at + 2, body);
    let whole = code.subrange(at as int, at + 5 * n + b + 2);
    assert(pairs(iters.skip(1), targets.skip(1)) == n - 1);
    assert(inner.len() == 5 * (n - 1) + b + 2);
    assert(code.subrange(at + 2, at + 2 + inner.len()) =~= inner) by {
        assert forall|i: int| 0 <= i < inner.len() implies code[at + 2 + i] == inner[i] by {
            assert(whole[2 + i] == code[at + (2 + i)]);
            assert(whole[2 + i] == inner[i]);
        }
    }
}

/// Whether the code from `from` on takes `m` instructions to reach `to` and
/// leaves the scopes as it found them, whatever they are.
#[verifier::opaque]
pub open spec fn body_keeps<T>(code: Seq<Instruction<T>>, from: usize, to: usize, m: nat) -> bool {
    forall|frames: Frames| #[trigger] ran(code, frames, from, m) == Some((frames, to))
}

/// The number of instructions that a nested loop takes from its first to
/// the one behind it, where its targets have `lens` steps and its body
/// takes `m`.
pub open spec fn nested_steps(lens: Seq<nat>, m: nat) -> nat
    decreases lens.len(),
{
    if lens.len() == 0 {
        m + 2
    } else {
        group_steps(1, nested_steps(lens.skip(1), m), lens[0], 0)
    }
}

/// The product of `lens`: the number of combinations of one step of each
/// target.
pub open spec fn combinations(lens: Seq<nat>) -> nat
    decreases lens.len(),
{
    if lens.len() == 0 {
        1
    } else {
        lens[0] * combinations(lens.skip(1))
    }
}

/// Of the instructions that a nested loop takes, those of its body are
/// taken once for each combination.
pub proof fn lemma_nested_steps_product(lens: Seq<nat>, m: nat)
    ensures
        nested_steps(lens, m) == nested_steps(lens, 0) + combinations(lens) * m,
    decreases lens.len(),
{
    if lens.len() == 0 {
        assert(combinations(lens) * m == m) by (nonlinear_arith)
            requires
                combinations(lens) == 1,
        ;
    } else {
        let rest = lens.skip(1);
        lemma_nested_steps_product(rest, m);
        let l = lens[0];
        let x = nested_steps(rest, m);
        let y = nested_steps(rest, 0);
        let c = combinations(rest);
        if l == 0 {
            assert(combinations(lens) * m == 0) by (nonlinear_arith)
                requires
                    combinations(lens) == l * c,
                    l == 0,
            ;
        } else {
            assert(l * (x + 2) + 2 == l * (y + 2) + 2 + (l * c) * m) by (nonlinear_arith)
                requires
                    x == y + c * m,
            ;
        }
    }
}

/// The scopes of each pass of the loop of one variable keep what is bound
/// to the variables `others`, none of which is the loop variable.
pub proof fn lemma_passed_others(
    frames: Frames,
    iter: VarNameId,
    var: VarNameId,
    len: nat,
    others: Seq<VarNameId>,
    lens: Seq<nat>,
    p: nat,
)
    requires
        iter.0 != var.0,
        are_targets(frames, seq![var], seq![len]),
        are_targets(frames, others, lens),
        forall|j: int| 0 <= j < others.len() ==> others[j].0 != iter.0,
        p <= usize::MAX,
    ensures
        are_targets(passed(frames, seq![iter], seq![var], p), others, lens),
        forall|k: int|
            0 <= k < others.len() ==> find_scope(
                passed(frames, seq![iter], seq![var], p),
                #[trigger] others[k].0,
            ) == find_scope(frames, others[k].0),
    decreases p,
{
    let iters = seq![iter];
    let vars = seq![var];
    let now = passed(frames, iters, vars, p);
    if p == 0 {
        lemma_started_keeps(frames, iters, vars, 1);
        assert forall|k: int| 0 <= k < others.len() implies find_scope(now, #[trigger] others[k].0)
            == find_scope(frames, others[k].0) && iter_len(
            now[find_scope(now, others[k].0)->0][others[k].0],
        ) == Some(lens[k]) by {
            let v = others[k].0;
            assert(find_scope(frames, v) is Some);
            if now.last().contains_key(v) {
                let j = choose|j: int| 0 <= j < 1 && #[trigger] iters[j].0 == v;
                assert(false);
            }
            lemma_find_scope_bound(frames, v);
            assert(now.drop_last()[find_scope(frames, v)->0] == now[find_scope(frames, v)->0]);
        }
    } else {
        let q = (p - 1) as nat;
        let before = passed(frames, iters, vars, q);
        lemma_passed_others(frames, iter, var, len, others, lens, q);
        lemma_passed(frames, iters, vars, seq![len], q);
        assert forall|k: int| 0 <= k < others.len() implies find_scope(now, #[trigger] others[k].0)
            == find_scope(frames, others[k].0) && iter_len(
            now[find_scope(now, others[k].0)->0][others[k].0],
        ) == Some(lens[k]) by {
            assert(find_scope(before, others[k].0) is Some);
            lemma_target_kept(before, iters, 1, others[k].0);
        }
    }
}

/// The scope that binds a variable is one of the scopes.
pub proof fn lemma_find_scope_bound(frames: Frames, v: usize)
    requires
        find_scope(frames, v) is Some,
    ensures
        0 <= find_scope(frames, v)->0 < frames.len(),
    decreases frames.len(),
{
    if frames.len() > 0 && !frames.last().contains_key(v) {
        lemma_find_scope_bound(frames.drop_last(), v);
    }
}

/// What code that holds a nested loop without variables holds: its body in
/// a scope.
pub proof fn lemma_combination_none<T>(
    code: Seq<Instruction<T>>,
    at: usize,
    iters: Seq<VarNameId>,
    vars: Seq<VarNameId>,
    body: Seq<Instruction<T>>,
)
    requires
        holds_combination_loop(code, at, iters, vars, body),
        iters.len() == 0,
    ensures
        code.len() <= usize::MAX,
        at + body.len() + 2 <= code.len(),
        code[at as int] == Instruction::<T>::PushScope,
        code[at + body.len() + 1] == Instruction::<T>::PopScope,
{
    reveal(holds_combination_loop);
    let b = body.len() as int;
    let whole = code.subrange(at as int, at + b + 2);
    assert(whole[0] == code[at + 0]);
    assert(whole[b + 1] == code[at + (b + 1)]);
}

/// The nested loop without variables: its body in a scope.
pub proof fn lemma_combination_base<T>(
    code: Seq<Instruction<T>>,
    at: usize,
    iters: Seq<VarNameId>,
    vars: Seq<VarNameId>,
    body: Seq<Instruction<T>>,
    frames: Frames,
    m: nat,
)
    requires
        holds_combination_loop(code, at, iters, vars, body),
        iters.len() == 0,
        body_keeps(code, (at + 1) as usize, (at + 1 + body.len()) as usize, m),
    ensures
        ran(code, frames, at, m + 2) == Some((frames, (at + body.len() + 2) as usize)),
{
    lemma_combination_none(code, at, iters, vars, body);
    let inner = frames.push(Map::empty());
    let from = (at + 1) as usize;
    let to = (at + 1 + body.len()) as usize;
    lemma_ran_none(code, frames, at);
    lemma_ran_push(code, frames, at, 0, frames, at);
    lemma_body_keeps(code, from, to, m, inner);
    lemma_ran_then(code, frames, at, 1, inner, from, m);
    lemma_ran_pop(code, frames, at, 1 + m, inner, to);
    assert(inner.drop_last() =~= frames);
}

/// What holds of all loop variables and targets holds of the first and of
/// the others.
pub proof fn lemma_first_and_rest(
    frames: Frames,
    iters: Seq<VarNameId>,
    vars: Seq<VarNameId>,
    lens: Seq<nat>,
)
    requires
        iters.len() > 0,
        are_apart(iters, vars),
        are_targets(frames, vars, lens),
        forall|k: int| 0 <= k < lens.len() ==> lens[k] <= usize::MAX,
    ensures
        iters[0].0 != vars[0].0,
        lens[0] <= usize::MAX,
        shortest(seq![lens[0]]) == lens[0],
        are_apart(seq![iters[0]], seq![vars[0]]),
        are_apart(iters.skip(1), vars.skip(1)),
        are_targets(frames, seq![vars[0]], seq![lens[0]]),
        are_targets(frames, vars.skip(1), lens.skip(1)),
        forall|j: int| 0 <= j < vars.skip(1).len() ==> vars.skip(1)[j].0 != iters[0].0,
        forall|k: int| 0 <= k < lens.skip(1).len() ==> lens.skip(1)[k] <= usize::MAX,
{
    let one = seq![vars[0]];
    let rest = vars.skip(1);
    assert forall|k: int| 0 <= k < one.len() implies find_scope(frames, #[trigger] one[k].0)
        is Some && iter_len(frames[find_scope(frames, one[k].0)->0][one[k].0]) == Some(
        seq![lens[0]][k],
    ) by {
        assert(one[k] == vars[0]);
    }
    assert forall|k: int| 0 <= k < rest.len() implies find_scope(frames, #[trigger] rest[k].0)
        is Some && iter_len(frames[find_scope(frames, rest[k].0)->0][rest[k].0]) == Some(
        lens.skip(1)[k],
    ) by {
        assert(rest[k] == vars[k + 1]);
    }
    assert forall|k: int| 0 <= k < lens.skip(1).len() implies lens.skip(1)[k] <= usize::MAX by {
        assert(lens.skip(1)[k] == lens[k + 1]);
    }
}

/// What [`body_keeps`] says of given scopes.
pub proof fn lemma_body_keeps<T>(
    code: Seq<Instruction<T>>,
    from: usize,
    to: usize,
    m: nat,
    frames: Frames,
)
    requires
        body_keeps(code, from, to, m),
    ensures
        ran(code, frames, from, m) == Some((frames, to)),
{
    reveal(body_keeps);
}

/// The nested loop whose first variable is the loop of [`lemma_group_run`]
/// around the other variables.
pub proof fn lemma_combination_step<T>(
    code: Seq<Instruction<T>>,
    at: usize,
    iters: Seq<VarNameId>,
    vars: Seq<VarNameId>,
    body: Seq<Instruction<T>>,
    frames: Frames,
    lens: Seq<nat>,
    m: nat,
)
    requires
        holds_combination_loop(code, at, iters, vars, body),
        iters.len() > 0,
        are_apart(iters, vars),
        are_targets(frames, vars, lens),
        forall|k: int| 0 <= k < lens.len() ==> lens[k] <= usize::MAX,
        forall|q: nat|
            q < lens[0] ==> #[trigger] ran(
                code,
                passed(frames, seq![iters[0]], seq![vars[0]], q),
                (at + 2) as usize,
                nested_steps(lens.skip(1), m),
            ) == Some(
                (
                    passed(frames, seq![iters[0]], seq![vars[0]], q),
                    (at + 5 * iters.len() + body.len() - 1) as usize,
                ),
            ),
    ensures
        ran(code, frames, at, nested_steps(lens, m)) == Some(
            (frames, (at + 5 * iters.len() + body.len() + 2) as usize),
        ),
{
    let one = seq![iters[0]];
    let first = seq![vars[0]];
    let mid = middle(combination_loop::<T>(iters.skip(1), variables(vars.skip(1)), at + 2, body));
    let inside = nested_steps(lens.skip(1), m);
    lemma_combination_nests(code, at, iters, vars, body);
    lemma_first_and_rest(frames, iters, vars, lens);
    assert forall|q: nat| q < shortest(seq![lens[0]]) implies body_returns(
        code,
        at,
        one,
        first,
        mid,
        frames,
        inside,
        q,
    ) by {
        let now = passed(frames, one, first, q);
        assert(ran(code, now, (at + 2) as usize, inside) == Some(
            (now, (at + 5 * iters.len() + body.len() - 1) as usize),
        ));
    }
    lemma_group_run(code, at, one, first, mid, frames, seq![lens[0]], inside);
    let j = choose|j: nat|
        j < one.len() && #[trigger] ran(code, frames, at, group_steps(1, inside, lens[0], j))
            == Some((frames, (at + 2 * one.len() + mid.len() + 5) as usize));
    assert(j == 0);
}

/// A nested loop runs its body once for each combination of one step of
/// each target, and leaves the scopes as it found them.
///
/// Where the body takes `m` instructions and leaves the scopes as it found
/// them, the loop has reached the instruction behind it, with the scopes
/// that it started from, after exactly [`nested_steps`] instructions, of
/// which, by [`lemma_nested_steps_product`], the product of the lengths of
/// the targets times `m` are those of the body.
pub proof fn lemma_combination_run<T>(
    code: Seq<Instruction<T>>,
    at: usize,
    iters: Seq<VarNameId>,
    vars: Seq<VarNameId>,
    body: Seq<Instruction<T>>,
    frames: Frames,
    lens: Seq<nat>,
    m: nat,
)
    requires
        holds_combination_loop(code, at, iters, vars, body),
        are_apart(iters, vars),
        are_targets(frames, vars, lens),
        forall|k: int| 0 <= k < lens.len() ==> lens[k] <= usize::MAX,
        body_keeps(
            code,
            (at + 2 * iters.len() + 1) as usize,
            (at + 2 * iters.len() + 1 + body.len()) as usize,
            m,
        ),
    ensures
        ran(code, frames, at, nested_steps(lens, m)) == Some(
            (frames, (at + 5 * iters.len() + body.len() + 2) as usize),
        ),
    decreases iters.len(),
{
    if iters.len() == 0 {
        lemma_combination_base(code, at, iters, vars, body, frames, m);
    } else {
        lemma_combination_nests(code, at, iters, vars, body);
        lemma_first_and_rest(frames, iters, vars, lens);
        assert forall|q: nat| q < lens[0] implies #[trigger] ran(
            code,
            passed(frames, seq![iters[0]], seq![vars[0]], q),
            (at + 2) as usize,
            nested_steps(lens.skip(1), m),
        ) == Some(
            (
                passed(frames, seq![iters[0]], seq![vars[0]], q),
                (at + 5 * iters.len() + body.len() - 1) as usize,
            ),
        ) by {
            let now = passed(frames, seq![iters[0]], seq![vars[0]], q);
            lemma_passed_others(frames, iters[0], vars[0], lens[0], vars.skip(1), lens.skip(1), q);
            lemma_combination_run(
                code,
                (at + 2) as usize,
                iters.skip(1),
                vars.skip(1),
                body,
                now,
                lens.skip(1),
                m,
            );
        }
        lemma_combination_step(code, at, iters, vars, body, frames, lens, m);
    }
}

/// A nested loop with nothing in its body takes the instructions of its
/// scopes, starts and steps alone, and leaves the scopes as it found them.
pub proof fn lemma_empty_combination_run<T>(
    code: Seq<Instruction<T>>,
    at: usize,
    iters: Seq<VarNameId>,
    vars: Seq<VarNameId>,
    frames: Frames,
    lens: Seq<nat>,
)
    requires
        holds_combination_loop(code, at, iters, vars, Seq::<Instruction<T>>::empty()),
        are_apart(iters, vars),
        are_targets(frames, vars, lens),
        forall|k: int| 0 <= k < lens.len() ==> lens[k] <= usize::MAX,
    ensures
        ran(code, frames, at, nested_steps(lens, 0)) == Some(
            (frames, (at + 5 * iters.len() + 2) as usize),
        ),
{
    let from = (at + 2 * iters.len() + 1) as usize;
    assert(code.len() <= usize::MAX && at + 5 * iters.len() + 2 <= code.len()) by {
        reveal(holds_combination_loop);
    }
    assert(body_keeps(code, from, from, 0)) by {
        reveal(body_keeps);
        assert forall|now: Frames| #[trigger] ran(code, now, from, 0) == Some((now, from)) by {
            lemma_ran_none(code, now, from);
        }
    }
    lemma_combination_run(code, at, iters, vars, Seq::<Instruction<T>>::empty(), frames, lens, 0);
}

/// The loop of the first variable of a nested loop reaches its pass `p`,
/// for each `p` less than the length of its target, after the loops of the
/// other variables have run in full once in each pass before.
pub proof fn lemma_outer_reaches<T>(
    code: Seq<Instruction<T>>,
    at: usize,
    iters: Seq<VarNameId>,
    vars: Seq<VarNameId>,
    body: Seq<Instruction<T>>,
    frames: Frames,
    lens: Seq<nat>,
    m: nat,
    p: nat,
)
    requires
        holds_combination_loop(code, at, iters, vars, body),
        iters.len() > 0,
        are_apart(iters, vars),
        are_targets(frames, vars, lens),
        forall|k: int| 0 <= k < lens.len() ==> lens[k] <= usize::MAX,
        body_keeps(
            code,
            (at + 2 * iters.len() + 1) as usize,
            (at + 2 * iters.len() + 1 + body.len()) as usize,
            m,
        ),
        p < lens[0],
    ensures
        ran(code, frames, at, 2 + p * (nested_steps(lens.skip(1), m) + 2)) == Some(
            (passed(frames, seq![iters[0]], seq![vars[0]], p), (at + 2) as usize),
        ),
{
    let one = seq![iters[0]];
    let first = seq![vars[0]];
    let mid = middle(combination_loop::<T>(iters.skip(1), variables(vars.skip(1)), at + 2, body));
    let inside = nested_steps(lens.skip(1), m);
    lemma_combination_nests(code, at, iters, vars, body);
    lemma_first_and_rest(frames, iters, vars, lens);
    assert forall|q: nat| q < p implies body_returns(code, at, one, first, mid, frames, inside, q) by {
        let now = passed(frames, one, first, q);
        lemma_passed_others(frames, iters[0], vars[0], lens[0], vars.skip(1), lens.skip(1), q);
        lemma_combination_run(
            code,
            (at + 2) as usize,
            iters.skip(1),
            vars.skip(1),
            body,
            now,
            lens.skip(1),
            m,
        );
    }
    lemma_group_reaches_pass(code, at, one, first, mid, frames, seq![lens[0]], inside, p);
    assert(one.len() + 1 + p * (inside + one.len() + 1) == 2 + p * (inside + 2));
}

/// The scopes in which the body of a nested loop runs for the combination
/// `ps`, one offset for each variable: on top of `frames` the scope of each
/// loop, first variable first, with its variable bound to a reference to
/// the step of its target that `ps` names, and on top of those the scope of
/// the body.
pub open spec fn nested_passed(
    frames: Frames,
    iters: Seq<VarNameId>,
    vars: Seq<VarNameId>,
    ps: Seq<nat>,
) -> Frames
    decreases iters.len(),
{
    if iters.len() == 0 || vars.len() == 0 || ps.len() == 0 {
        frames.push(Map::empty())
    } else {
        nested_passed(
            passed(frames, seq![iters[0]], seq![vars[0]], ps[0]),
            iters.skip(1),
            vars.skip(1),
            ps.skip(1),
        )
    }
}

/// The number of instructions that a nested loop takes to reach its body
/// for the combination `ps`: for each variable its start, and for each of
/// its steps before the one that `ps` names a full run of the loops inside
/// it. The combinations so come in the order of their offsets, the last
/// variable stepping fastest.
pub open spec fn nested_reach(lens: Seq<nat>, ps: Seq<nat>, m: nat) -> nat
    decreases lens.len(),
{
    if lens.len() == 0 || ps.len() == 0 {
        1
    } else {
        2 + ps[0] * (nested_steps(lens.skip(1), m) + 2) + nested_reach(
            lens.skip(1),
            ps.skip(1),
            m,
        )
    }
}

/// A nested loop reaches its body for each combination of one step of each
/// target, with every loop variable at its step of that combination.
///
/// Where the body takes `m` instructions and leaves the scopes as it found
/// them, the body is reached for the combination `ps` after exactly
/// [`nested_reach`] instructions, in the scopes [`nested_passed`].
pub proof fn lemma_combination_reach<T>(
    code: Seq<Instruction<T>>,
    at: usize,
    iters: Seq<VarNameId>,
    vars: Seq<VarNameId>,
    body: Seq<Instruction<T>>,
    frames: Frames,
    lens: Seq<nat>,
    m: nat,
    ps: Seq<nat>,
)
    requires
        holds_combination_loop(code, at, iters, vars, body),
        are_apart(iters, vars),
        are_targets(frames, vars, lens),
        forall|k: int| 0 <= k < lens.len() ==> lens[k] <= usize::MAX,
        body_keeps(
            code,
            (at + 2 * iters.len() + 1) as usize,
            (at + 2 * iters.len() + 1 + body.len()) as usize,
            m,
        ),
        ps.len() == lens.len(),
        forall|k: int| 0 <= k < ps.len() ==> ps[k] < lens[k],
    ensures
        ran(code, frames, at, nested_reach(lens, ps, m)) == Some(
            (nested_passed(frames, iters, vars, ps), (at + 2 * iters.len() + 1) as usize),
        ),
    decreases iters.len(),
{
    if iters.len() == 0 {
        lemma_combination_none(code, at, iters, vars, body);
        lemma_ran_none(code, frames, at);
        lemma_ran_push(code, frames, at, 0, frames, at);
    } else {
        let now = passed(frames, seq![iters[0]], seq![vars[0]], ps[0]);
        let inside = nested_reach(lens.skip(1), ps.skip(1), m);
        lemma_outer_reaches(code, at, iters, vars, body, frames, lens, m, ps[0]);
        lemma_combination_nests(code, at, iters, vars, body);
        lemma_first_and_rest(frames, iters, vars, lens);
        lemma_passed_others(frames, iters[0], vars[0], lens[0], vars.skip(1), lens.skip(1), ps[0]);
        assert forall|k: int| 0 <= k < ps.skip(1).len() implies ps.skip(1)[k] < lens.skip(1)[k] by {
            assert(ps.skip(1)[k] == ps[k + 1]);
            assert(lens.skip(1)[k] == lens[k + 1]);
        }
        lemma_combination_reach(
            code,
            (at + 2) as usize,
            iters.skip(1),
            vars.skip(1),
            body,
            now,
            lens.skip(1),
            m,
            ps.skip(1),
        );
        lemma_ran_then(
            code,
            frames,
            at,
            2 + ps[0] * (nested_steps(lens.skip(1), m) + 2),
            now,
            (at + 2) as usize,
            inside,
        );
    }
}

/// In the scopes in which the body of a nested loop runs for the
/// combination `ps`, the scopes that the loop found are as they were, each
/// loop has its scope on top of them, first variable first, with its
/// variable bound there to a reference to the step of its target that `ps`
/// names, and the scope of the body is empty.
pub proof fn lemma_nested_passed(
    frames: Frames,
    iters: Seq<VarNameId>,
    vars: Seq<VarNameId>,
    lens: Seq<nat>,
    ps: Seq<nat>,
)
    requires
        are_apart(iters, vars),
        are_targets(frames, vars, lens),
        forall|k: int| 0 <= k < lens.len() ==> lens[k] <= usize::MAX,
        ps.len() == lens.len(),
        forall|k: int| 0 <= k < ps.len() ==> ps[k] < lens[k],
    ensures
        nested_passed(frames, iters, vars, ps).len() == frames.len() + iters.len() + 1,
        forall|j: int|
            0 <= j < frames.len() ==> #[trigger] nested_passed(frames, iters, vars, ps)[j]
                == frames[j],
        nested_passed(frames, iters, vars, ps).last() == Map::<usize, Value>::empty(),
        forall|k: int|
            0 <= k < iters.len() ==> nested_passed(frames, iters, vars, ps)[frames.len()
                + k][#[trigger] iters[k].0] == Value::Ref(
                VariableRef {
                    scope: find_scope(frames, vars[k].0)->0 as usize,
                    target: vars[k],
                    offset: ps[k] as usize,
                },
            ),
    decreases iters.len(),
{
    let all = nested_passed(frames, iters, vars, ps);
    if iters.len() > 0 {
        let one = seq![iters[0]];
        let first = seq![vars[0]];
        let now = passed(frames, one, first, ps[0]);
        lemma_first_and_rest(frames, iters, vars, lens);
        lemma_passed(frames, one, first, seq![lens[0]], ps[0]);
        lemma_passed_cursor(frames, one, first, seq![lens[0]], ps[0], 0);
        lemma_passed_others(frames, iters[0], vars[0], lens[0], vars.skip(1), lens.skip(1), ps[0]);
        assert forall|k: int| 0 <= k < ps.skip(1).len() implies ps.skip(1)[k] < lens.skip(1)[k] by {
            assert(ps.skip(1)[k] == ps[k + 1]);
            assert(lens.skip(1)[k] == lens[k + 1]);
        }
        lemma_nested_passed(now, iters.skip(1), vars.skip(1), lens.skip(1), ps.skip(1));
        assert(now.len() == frames.len() + 1);
        assert forall|j: int| 0 <= j < frames.len() implies #[trigger] all[j] == frames[j] by {
            assert(all[j] == now[j]);
            assert(now.drop_last()[j] == now[j]);
        }
        assert forall|k: int| 0 <= k < iters.len() implies all[frames.len() + k][#[trigger] iters[k].0]
            == Value::Ref(
            VariableRef {
                scope: find_scope(frames, vars[k].0)->0 as usize,
                target: vars[k],
                offset: ps[k] as usize,
            },
        ) by {
            if k == 0 {
                assert(all[frames.len() as int] == now[frames.len() as int]);
                assert(now.last() == now[frames.len() as int]);
                assert(one[0] == iters[0] && first[0] == vars[0]);
            } else {
                assert(iters.skip(1)[k - 1] == iters[k]);
                assert(vars.skip(1)[k - 1] == vars[k]);
                assert(ps.skip(1)[k - 1] == ps[k]);
                assert(all[now.len() + (k - 1)] == all[frames.len() + k]);
                assert(find_scope(now, vars.skip(1)[k - 1].0) == find_scope(
                    frames,
                    vars.skip(1)[k - 1].0,
                ));
            }
        }
    }
}

/// Whether the combination `ps` comes before `qs` in the order of their
/// offsets, the first variable counting most.
pub open spec fn comes_before(ps: Seq<nat>, qs: Seq<nat>) -> bool
    decreases ps.len(),
{
    if ps.len() == 0 || qs.len() == 0 {
        false
    } else {
        ps[0] < qs[0] || (ps[0] == qs[0] && comes_before(ps.skip(1), qs.skip(1)))
    }
}

/// The body and the end of its scope still lie ahead when a nested loop
/// reaches its body for a combination.
pub proof fn lemma_reach_bound(lens: Seq<nat>, ps: Seq<nat>, m: nat)
    requires
        ps.len() == lens.len(),
        forall|k: int| 0 <= k < ps.len() ==> ps[k] < lens[k],
    ensures
        nested_reach(lens, ps, m) + m + 1 <= nested_steps(lens, m),
        nested_reach(lens, ps, m) >= 1,
    decreases lens.len(),
{
    if lens.len() > 0 {
        let inside = nested_steps(lens.skip(1), m);
        let p = ps[0];
        let l = lens[0];
        assert forall|k: int| 0 <= k < ps.skip(1).len() implies ps.skip(1)[k] < lens.skip(1)[k] by {
            assert(ps.skip(1)[k] == ps[k + 1]);
            assert(lens.skip(1)[k] == lens[k + 1]);
        }
        lemma_reach_bound(lens.skip(1), ps.skip(1), m);
        assert(p * (inside + 2) + (inside + 2) <= l * (inside + 2)) by (nonlinear_arith)
            requires
                p + 1 <= l,
        ;
    }
}

/// A nested loop reaches its body for the combinations in the order of
/// their offsets, the last variable stepping fastest.
pub proof fn lemma_reach_order(lens: Seq<nat>, ps: Seq<nat>, qs: Seq<nat>, m: nat)
    requires
        ps.len() == lens.len(),
        qs.len() == lens.len(),
        forall|k: int| 0 <= k < ps.len() ==> ps[k] < lens[k],
        forall|k: int| 0 <= k < qs.len() ==> qs[k] < lens[k],
        comes_before(ps, qs),
    ensures
        nested_reach(lens, ps, m) < nested_reach(lens, qs, m),
    decreases lens.len(),
{
    if lens.len() > 0 {
        let inside = nested_steps(lens.skip(1), m);
        let p = ps[0];
        let q = qs[0];
        assert forall|k: int| 0 <= k < ps.skip(1).len() implies ps.skip(1)[k] < lens.skip(1)[k] by {
            assert(ps.skip(1)[k] == ps[k + 1]);
            assert(lens.skip(1)[k] == lens[k + 1]);
        }
        assert forall|k: int| 0 <= k < qs.skip(1).len() implies qs.skip(1)[k] < lens.skip(1)[k] by {
            assert(qs.skip(1)[k] == qs[k + 1]);
            assert(lens.skip(1)[k] == lens[k + 1]);
        }
        lemma_reach_bound(lens.skip(1), ps.skip(1), m);
        lemma_reach_bound(lens.skip(1), qs.skip(1), m);
        if p < q {
            assert(p * (inside + 2) + (inside + 2) <= q * (inside + 2)) by (nonlinear_arith)
                requires
                    p + 1 <= q,
            ;
        } else {
            lemma_reach_order(lens.skip(1), ps.skip(1), qs.skip(1), m);
        }
    }
}

} // verus!
