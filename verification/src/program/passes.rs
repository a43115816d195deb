//! What holds of the steps of a loop whose variables advance together.

use super::ids::{InstructionId, VarNameId};
use super::instruction::{Instruction, IterTarget};
use super::object::{Value, VariableRef};
use super::path::{bound_in, find_scope, Frames};
use super::semantics::{
    after, iter_len, next_offset, ran, stepped, variable_advanced, variable_started,
};
use crate::bed::expr::IterTargetExpr;
use super::state::lemma_find_scope;
use vstd::prelude::*;

verus! {

/// The scopes after the first `k` of the loop variables `iters`, each bound
/// to a reference in the innermost scope, have advanced by one step.
pub open spec fn advanced(frames: Frames, iters: Seq<VarNameId>, k: nat) -> Frames
    decreases k,
{
    if k == 0 || k > iters.len() {
        frames
    } else {
        let before = advanced(frames, iters, (k - 1) as nat);
        let top = frames.len() - 1;
        let iter = iters[k - 1];
        match before[top][iter.0] {
            Value::Ref(r) => bound_in(
                before,
                top,
                iter.0,
                Value::Ref(
                    VariableRef { scope: r.scope, target: r.target, offset: next_offset(r.offset) },
                ),
            ),
            _ => before,
        }
    }
}

/// The offset that the loop variable `iters[k]` stands at.
pub open spec fn offset_of(frames: Frames, iters: Seq<VarNameId>, k: int) -> usize {
    frames.last()[iters[k].0]->Ref_0.offset
}

/// Whether the code holds, from `q` on, the steps of a lock-step loop over
/// the variables `targets`, and the scopes are those of a pass of that
/// loop: the loop variables are distinct and bound to references in the
/// innermost scope, and each target is bound to something of `lens[k]`
/// steps.
#[verifier::opaque]
pub open spec fn at_steps<T>(
    code: Seq<Instruction<T>>,
    frames: Frames,
    q: usize,
    iters: Seq<VarNameId>,
    targets: Seq<VarNameId>,
    lens: Seq<nat>,
    end: usize,
) -> bool {
    &&& are_cursors(frames, iters)
    &&& iters.len() == targets.len()
    &&& iters.len() == lens.len()
    &&& q + iters.len() <= code.len()
    &&& code.len() <= usize::MAX
    &&& forall|k: int|
        0 <= k < iters.len() ==> #[trigger] code[q + k] == (Instruction::<T>::Increment {
            target: IterTarget::Variable(targets[k]),
            iter: iters[k],
            jump: InstructionId(end),
        })
    &&& forall|k: int|
        0 <= k < iters.len() ==> find_scope(frames, #[trigger] targets[k].0) is Some && iter_len(
            frames[find_scope(frames, targets[k].0)->0][targets[k].0],
        ) == Some(lens[k])
}

/// Whether the loop variable `iters[k]` has a step left after the one it
/// stands at.
pub open spec fn has_next(frames: Frames, iters: Seq<VarNameId>, lens: Seq<nat>, k: int) -> bool {
    offset_of(frames, iters, k) + 1 < lens[k]
}

/// Scopes that bind the same names find a name in the same scope.
pub proof fn lemma_find_scope_same_names(a: Frames, b: Frames, v: usize)
    requires
        a.len() == b.len(),
        forall|i: int| 0 <= i < a.len() ==> (a[i].contains_key(v) <==> b[i].contains_key(v)),
    ensures
        find_scope(a, v) == find_scope(b, v),
    decreases a.len(),
{
    if a.len() > 0 {
        assert(a.last().contains_key(v) <==> b.last().contains_key(v));
        if !a.last().contains_key(v) {
            lemma_find_scope_same_names(a.drop_last(), b.drop_last(), v);
        }
    }
}

/// Advancing loop variables changes nothing but their own references: every
/// scope binds the names it bound, every other binding is as it was, and a
/// variable that has not advanced yet stands where it stood.
pub proof fn lemma_advanced_keeps(frames: Frames, iters: Seq<VarNameId>, k: nat)
    requires
        are_cursors(frames, iters),
        k <= iters.len(),
    ensures
        advanced(frames, iters, k).len() == frames.len(),
        forall|i: int, v: usize|
            0 <= i < frames.len() ==> (#[trigger] advanced(frames, iters, k)[i].contains_key(v)
                <==> frames[i].contains_key(v)),
        forall|i: int| 0 <= i < frames.len() - 1 ==> #[trigger] advanced(frames, iters, k)[i] == frames[i],
        forall|v: usize|
            (forall|j: int| 0 <= j < k ==> iters[j].0 != v) ==> #[trigger] advanced(
                frames,
                iters,
                k,
            ).last()[v] == frames.last()[v],
        forall|j: int|
            0 <= j < k ==> #[trigger] advanced(frames, iters, k).last()[iters[j].0] == Value::Ref(
                VariableRef {
                    scope: frames.last()[iters[j].0]->Ref_0.scope,
                    target: frames.last()[iters[j].0]->Ref_0.target,
                    offset: next_offset(frames.last()[iters[j].0]->Ref_0.offset),
                },
            ),
    decreases k,
{
    if k > 0 {
        lemma_advanced_keeps(frames, iters, (k - 1) as nat);
        let before = advanced(frames, iters, (k - 1) as nat);
        let now = advanced(frames, iters, k);
        let top = frames.len() - 1;
        let iter = iters[k - 1];
        assert(before.last()[iter.0] == frames.last()[iter.0]);
        assert(before[top].contains_key(iter.0));
        assert forall|i: int, v: usize| 0 <= i < frames.len() implies (#[trigger] now[i].contains_key(
            v,
        ) <==> frames[i].contains_key(v)) by {
            assert(before[i].contains_key(v) <==> frames[i].contains_key(v));
        }
        assert forall|j: int| 0 <= j < k implies #[trigger] now.last()[iters[j].0] == Value::Ref(
            VariableRef {
                scope: frames.last()[iters[j].0]->Ref_0.scope,
                target: frames.last()[iters[j].0]->Ref_0.target,
                offset: next_offset(frames.last()[iters[j].0]->Ref_0.offset),
            },
        ) by {
            if j < k - 1 {
                assert(iters[j].0 != iter.0);
                assert(before.last()[iters[j].0] == Value::Ref(
                    VariableRef {
                        scope: frames.last()[iters[j].0]->Ref_0.scope,
                        target: frames.last()[iters[j].0]->Ref_0.target,
                        offset: next_offset(frames.last()[iters[j].0]->Ref_0.offset),
                    },
                ));
            }
        }
    }
}

/// Whether the loop variables are distinct and each bound to a reference in
/// the innermost scope.
pub open spec fn are_cursors(frames: Frames, iters: Seq<VarNameId>) -> bool {
    &&& frames.len() > 0
    &&& forall|i: int, j: int|
        0 <= i < iters.len() && 0 <= j < iters.len() && i != j ==> iters[i].0 != iters[j].0
    &&& forall|j: int|
        0 <= j < iters.len() ==> frames.last().contains_key(#[trigger] iters[j].0)
            && frames.last()[iters[j].0] is Ref
}

/// What a loop steps over is found where it was, and is what it was, after
/// loop variables have advanced.
pub proof fn lemma_target_kept(frames: Frames, iters: Seq<VarNameId>, k: nat, target: usize)
    requires
        are_cursors(frames, iters),
        k <= iters.len(),
        find_scope(frames, target) is Some,
        iter_len(frames[find_scope(frames, target)->0][target]) is Some,
    ensures
        find_scope(advanced(frames, iters, k), target) == find_scope(frames, target),
        advanced(frames, iters, k)[find_scope(frames, target)->0][target]
            == frames[find_scope(frames, target)->0][target],
{
    let now = advanced(frames, iters, k);
    let top = frames.len() - 1;
    lemma_advanced_keeps(frames, iters, k);
    assert forall|i: int| 0 <= i < now.len() implies (now[i].contains_key(target)
        <==> frames[i].contains_key(target)) by {}
    lemma_find_scope_same_names(now, frames, target);
    lemma_find_scope(frames, target);
    let s = find_scope(frames, target)->0;
    if s == top {
        assert forall|j: int| 0 <= j < k implies iters[j].0 != target by {
            if iters[j].0 == target {
                assert(frames.last()[iters[j].0] is Ref);
            }
        }
        assert(now.last()[target] == frames.last()[target]);
    } else {
        assert(now[s] == frames[s]);
    }
}

/// A loop variable that has not advanced yet is found in the innermost
/// scope and stands where it stood.
pub proof fn lemma_cursor_kept(frames: Frames, iters: Seq<VarNameId>, k: nat)
    requires
        are_cursors(frames, iters),
        k < iters.len(),
    ensures
        advanced(frames, iters, k).len() == frames.len(),
        find_scope(advanced(frames, iters, k), iters[k as int].0) == Some(frames.len() - 1),
        advanced(frames, iters, k).last()[iters[k as int].0] == frames.last()[iters[k as int].0],
        frames.last()[iters[k as int].0] is Ref,
{
    let now = advanced(frames, iters, k);
    let top = frames.len() - 1;
    let iter = iters[k as int];
    lemma_advanced_keeps(frames, iters, k);
    assert(frames.last().contains_key(iters[k as int].0));
    assert(now[top].contains_key(iter.0) <==> frames[top].contains_key(iter.0));
    assert(now.last().contains_key(iter.0));
    assert forall|j: int| 0 <= j < k implies iters[j].0 != iter.0 by {}
    assert(now.last()[iter.0] == frames.last()[iter.0]);
}

/// The step of one loop variable, after the variables before it have
/// advanced: it advances by one, and the loop is over where it has no step
/// left.
pub proof fn lemma_one_step<T>(
    i: Instruction<T>,
    frames: Frames,
    counter: usize,
    iters: Seq<VarNameId>,
    k: nat,
    target: VarNameId,
    len: nat,
    end: usize,
)
    requires
        are_cursors(frames, iters),
        k < iters.len(),
        i == (Instruction::<T>::Increment {
            target: IterTarget::Variable(target),
            iter: iters[k as int],
            jump: InstructionId(end),
        }),
        find_scope(frames, target.0) is Some,
        iter_len(frames[find_scope(frames, target.0)->0][target.0]) == Some(len),
    ensures
        stepped(i, advanced(frames, iters, k), counter) == Some(
            (
                advanced(frames, iters, k + 1),
                if offset_of(frames, iters, k as int) + 1 >= len {
                    end
                } else {
                    after(counter)
                },
            ),
        ),
{
    lemma_target_kept(frames, iters, k, target.0);
    lemma_cursor_kept(frames, iters, k);
    let now = advanced(frames, iters, k);
    let iter = iters[k as int];
    let r = frames.last()[iter.0]->Ref_0;
    assert(variable_advanced(now, target, iter) == Ok::<(Frames, bool), super::path::Failure>(
        (advanced(frames, iters, k + 1), r.offset + 1 >= len),
    ));
}

/// In a lock-step loop all variables advance together, and the loop is over
/// as soon as one of them has no step left.
///
/// Where the first `k` variables each have a step left, running their `k`
/// steps advances each of them by one and leads to the step of the next
/// variable. Where the variable after them has none left, its step leads to
/// the end of the loop and no further variable advances.
pub proof fn lemma_lock_step<T>(
    code: Seq<Instruction<T>>,
    frames: Frames,
    q: usize,
    iters: Seq<VarNameId>,
    targets: Seq<VarNameId>,
    lens: Seq<nat>,
    end: usize,
    k: nat,
)
    requires
        at_steps(code, frames, q, iters, targets, lens, end),
        k <= iters.len(),
        forall|j: int| 0 <= j < k ==> has_next(frames, iters, lens, j),
    ensures
        ran(code, frames, q, k) == Some((advanced(frames, iters, k), (q + k) as usize)),
        k < iters.len() && !has_next(frames, iters, lens, k as int) ==> ran(
            code,
            frames,
            q,
            k + 1,
        ) == Some((advanced(frames, iters, k + 1), end)),
        k < iters.len() && has_next(frames, iters, lens, k as int) ==> ran(code, frames, q, k + 1)
            == Some((advanced(frames, iters, k + 1), (q + k + 1) as usize)),
    decreases k,
{
    reveal(ran);
    reveal(at_steps);
    if k > 0 {
        lemma_lock_step(code, frames, q, iters, targets, lens, end, (k - 1) as nat);
        assert(has_next(frames, iters, lens, k - 1));
    }
    if k < iters.len() {
        assert(code[q + k] == (Instruction::<T>::Increment {
            target: IterTarget::Variable(targets[k as int]),
            iter: iters[k as int],
            jump: InstructionId(end),
        }));
        assert(find_scope(frames, targets[k as int].0) is Some);
        lemma_one_step(
            code[q + k],
            frames,
            (q + k) as usize,
            iters,
            k,
            targets[k as int],
            lens[k as int],
            end,
        );
    }
}

/// One more instruction, run with success, after some that were.
pub proof fn lemma_ran_next<T>(
    code: Seq<Instruction<T>>,
    frames: Frames,
    start: usize,
    n: nat,
    now: Frames,
    counter: usize,
)
    requires
        ran(code, frames, start, n) == Some((now, counter)),
        counter < code.len(),
    ensures
        ran(code, frames, start, n + 1) == stepped(code[counter as int], now, counter),
{
    reveal(ran);
}

/// After some instructions, a push of a scope adds an empty scope on top and
/// leads to the next instruction.
pub proof fn lemma_ran_push<T>(
    code: Seq<Instruction<T>>,
    frames: Frames,
    start: usize,
    n: nat,
    now: Frames,
    counter: usize,
)
    requires
        ran(code, frames, start, n) == Some((now, counter)),
        counter < code.len(),
        code.len() <= usize::MAX,
        code[counter as int] == Instruction::<T>::PushScope,
    ensures
        ran(code, frames, start, n + 1) == Some(
            (now.push(Map::empty()), (counter + 1) as usize),
        ),
{
    lemma_ran_next(code, frames, start, n, now, counter);
    lemma_push::<T>(now, counter);
}

/// After some instructions, a pop of a scope takes the innermost scope away
/// and leads to the next instruction.
pub proof fn lemma_ran_pop<T>(
    code: Seq<Instruction<T>>,
    frames: Frames,
    start: usize,
    n: nat,
    now: Frames,
    counter: usize,
)
    requires
        ran(code, frames, start, n) == Some((now, counter)),
        counter < code.len(),
        code.len() <= usize::MAX,
        code[counter as int] == Instruction::<T>::PopScope,
        now.len() > 0,
    ensures
        ran(code, frames, start, n + 1) == Some((now.drop_last(), (counter + 1) as usize)),
{
    lemma_ran_next(code, frames, start, n, now, counter);
    lemma_pop::<T>(now, counter);
}

/// Running no instruction changes nothing.
pub proof fn lemma_ran_none<T>(code: Seq<Instruction<T>>, frames: Frames, start: usize)
    ensures
        ran(code, frames, start, 0) == Some((frames, start)),
{
    reveal(ran);
}

/// A `Goto` goes to its target and leaves the scopes as they are.
pub proof fn lemma_goto<T>(frames: Frames, counter: usize, target: usize)
    ensures
        stepped(Instruction::<T>::Goto(InstructionId(target)), frames, counter) == Some(
            (frames, target),
        ),
{
}

/// A `PopScope` drops the innermost scope and goes on.
pub proof fn lemma_pop<T>(frames: Frames, counter: usize)
    requires
        frames.len() > 0,
    ensures
        stepped(Instruction::<T>::PopScope, frames, counter) == Some(
            (frames.drop_last(), after(counter)),
        ),
{
}

/// Running `a` instructions and then `b` more is running `a + b`.
pub proof fn lemma_ran_then<T>(
    code: Seq<Instruction<T>>,
    frames: Frames,
    start: usize,
    a: nat,
    now: Frames,
    counter: usize,
    b: nat,
)
    requires
        ran(code, frames, start, a) == Some((now, counter)),
    ensures
        ran(code, frames, start, a + b) == ran(code, now, counter, b),
    decreases b,
{
    reveal(ran);
    if b > 0 {
        lemma_ran_then(code, frames, start, a, now, counter, (b - 1) as nat);
        assert(a + b - 1 == a + (b - 1) as nat);
    }
}

/// A push of a scope adds an empty scope on top.
pub proof fn lemma_push<T>(frames: Frames, counter: usize)
    ensures
        stepped(Instruction::<T>::PushScope, frames, counter) == Some(
            (frames.push(Map::empty()), after(counter)),
        ),
{
}

/// The reference that a loop variable is bound to when the loop over `var`
/// starts.
pub open spec fn first_ref(frames: Frames, var: VarNameId) -> Value {
    Value::Ref(
        VariableRef { scope: find_scope(frames, var.0)->0 as usize, target: var, offset: 0 },
    )
}

/// The scopes after a scope has been pushed for a loop and the first `k` of
/// its variables have been bound, each to a reference to the first step of
/// what it steps over.
pub open spec fn started(frames: Frames, iters: Seq<VarNameId>, vars: Seq<VarNameId>, k: nat) -> Frames
    decreases k,
{
    if k == 0 || k > iters.len() {
        frames.push(Map::empty())
    } else {
        bound_in(
            started(frames, iters, vars, (k - 1) as nat),
            frames.len() as int,
            iters[k - 1].0,
            first_ref(frames, vars[k - 1]),
        )
    }
}

/// Whether the loop variables are distinct and none of them is called as
/// something that is stepped over.
pub open spec fn are_apart(iters: Seq<VarNameId>, vars: Seq<VarNameId>) -> bool {
    &&& iters.len() == vars.len()
    &&& forall|i: int, j: int|
        0 <= i < iters.len() && 0 <= j < iters.len() && i != j ==> iters[i].0 != iters[j].0
    &&& forall|i: int, j: int|
        0 <= i < iters.len() && 0 <= j < vars.len() ==> iters[i].0 != vars[j].0
}

/// Binding loop variables touches the scope of the loop only: the scopes
/// around it are as they were, the scope of the loop binds the variables
/// bound so far and nothing else, each to a reference to a first step.
pub proof fn lemma_started_keeps(frames: Frames, iters: Seq<VarNameId>, vars: Seq<VarNameId>, k: nat)
    requires
        are_apart(iters, vars),
        k <= iters.len(),
    ensures
        started(frames, iters, vars, k).len() == frames.len() + 1,
        started(frames, iters, vars, k).drop_last() == frames,
        forall|v: usize| #[trigger]
            started(frames, iters, vars, k).last().contains_key(v) <==> exists|j: int|
                0 <= j < k && #[trigger] iters[j].0 == v,
        forall|j: int|
            0 <= j < k ==> #[trigger] started(frames, iters, vars, k).last()[iters[j].0]
                == first_ref(frames, vars[j]),
    decreases k,
{
    let now = started(frames, iters, vars, k);
    if k > 0 {
        lemma_started_keeps(frames, iters, vars, (k - 1) as nat);
        let before = started(frames, iters, vars, (k - 1) as nat);
        let iter = iters[k - 1];
        assert(now.drop_last() =~= before.drop_last());
        assert(now.last() == before.last().insert(iter.0, first_ref(frames, vars[k - 1])));
        assert forall|v: usize| #[trigger] now.last().contains_key(v) <==> exists|j: int|
            0 <= j < k && #[trigger] iters[j].0 == v by {
            if now.last().contains_key(v) {
                if v == iter.0 {
                    assert(iters[k - 1].0 == v);
                } else {
                    assert(before.last().contains_key(v));
                    let j = choose|j: int| 0 <= j < k - 1 && #[trigger] iters[j].0 == v;
                    assert(iters[j].0 == v);
                }
            }
            if exists|j: int| 0 <= j < k && #[trigger] iters[j].0 == v {
                let j = choose|j: int| 0 <= j < k && #[trigger] iters[j].0 == v;
                if j < k - 1 {
                    assert(iters[j].0 == v);
                    assert(before.last().contains_key(v));
                }
            }
        }
        assert forall|j: int| 0 <= j < k implies #[trigger] now.last()[iters[j].0] == first_ref(
            frames,
            vars[j],
        ) by {
            if j < k - 1 {
                assert(iters[j].0 != iter.0);
                assert(before.last()[iters[j].0] == first_ref(frames, vars[j]));
            }
        }
    } else {
        assert(now.drop_last() =~= frames);
    }
}

/// What a new scope with loop variables in it leaves of a lookup of
/// something that is stepped over: it is found where it was.
pub proof fn lemma_started_target(
    frames: Frames,
    iters: Seq<VarNameId>,
    vars: Seq<VarNameId>,
    k: nat,
    m: int,
)
    requires
        are_apart(iters, vars),
        k <= iters.len(),
        0 <= m < vars.len(),
        find_scope(frames, vars[m].0) is Some,
    ensures
        find_scope(started(frames, iters, vars, k), vars[m].0) == find_scope(frames, vars[m].0),
        started(frames, iters, vars, k)[find_scope(frames, vars[m].0)->0][vars[m].0]
            == frames[find_scope(frames, vars[m].0)->0][vars[m].0],
{
    let now = started(frames, iters, vars, k);
    lemma_started_keeps(frames, iters, vars, k);
    lemma_find_scope(frames, vars[m].0);
    assert(!now.last().contains_key(vars[m].0)) by {
        if now.last().contains_key(vars[m].0) {
            let j = choose|j: int| 0 <= j < k && #[trigger] iters[j].0 == vars[m].0;
            assert(iters[j].0 != vars[m].0);
        }
    }
    let s = find_scope(frames, vars[m].0)->0;
    assert(now.drop_last()[s] == now[s]);
}

/// The start of one loop variable, after the variables before it have been
/// bound: where what it steps over has a step, it is bound to a reference
/// to the first, and else the loop is skipped.
pub proof fn lemma_start_one<T>(
    i: Instruction<T>,
    frames: Frames,
    counter: usize,
    iters: Seq<VarNameId>,
    vars: Seq<VarNameId>,
    k: nat,
    len: nat,
    end: usize,
)
    requires
        are_apart(iters, vars),
        k < iters.len(),
        i == (Instruction::<T>::StartIter {
            target: IterTargetExpr::Variable(vars[k as int]),
            iter: iters[k as int],
            jump: InstructionId(end),
        }),
        find_scope(frames, vars[k as int].0) is Some,
        iter_len(frames[find_scope(frames, vars[k as int].0)->0][vars[k as int].0]) == Some(len),
    ensures
        len > 0 ==> stepped(i, started(frames, iters, vars, k), counter) == Some(
            (started(frames, iters, vars, k + 1), after(counter)),
        ),
        len == 0 ==> stepped(i, started(frames, iters, vars, k), counter) == Some(
            (started(frames, iters, vars, k), end),
        ),
{
    let now = started(frames, iters, vars, k);
    lemma_started_keeps(frames, iters, vars, k);
    lemma_started_target(frames, iters, vars, k, k as int);
    if len > 0 {
        assert(variable_started(now, vars[k as int], iters[k as int]) == Ok::<
            Option<Frames>,
            super::path::Failure,
        >(Some(started(frames, iters, vars, k + 1))));
    } else {
        assert(variable_started(now, vars[k as int], iters[k as int]) == Ok::<
            Option<Frames>,
            super::path::Failure,
        >(None));
    }
}

} // verus!
