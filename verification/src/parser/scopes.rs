//! The code of a loop pushes as many scopes as it pops.

use super::nests::{lemma_combination_ends, lemma_combination_unfold, middle};
use super::{combination_loop, group_loop, increments, pairs, starts};
use crate::bed::expr::IterTargetExpr;
use crate::program::ids::VarNameId;
use crate::program::instruction::Instruction;
use vstd::prelude::*;

verus! {

/// What one instruction adds to the number of scopes.
pub open spec fn scope_change<T>(i: Instruction<T>) -> int {
    match i {
        Instruction::PushScope => 1,
        Instruction::PopScope => -1,
        _ => 0,
    }
}

/// The pushes of a scope in `code` less the pops.
pub open spec fn scope_balance<T>(code: Seq<Instruction<T>>) -> int
    decreases code.len(),
{
    if code.len() == 0 {
        0
    } else {
        scope_balance(code.drop_last()) + scope_change(code.last())
    }
}

/// The balance of two pieces of code, one after the other, is the sum of
/// their balances.
pub proof fn lemma_balance_sum<T>(a: Seq<Instruction<T>>, b: Seq<Instruction<T>>)
    ensures
        scope_balance(a + b) == scope_balance(a) + scope_balance(b),
    decreases b.len(),
{
    if b.len() == 0 {
        assert(a + b =~= a);
    } else {
        lemma_balance_sum(a, b.drop_last());
        assert((a + b).drop_last() =~= a + b.drop_last());
    }
}

/// Code without a push or a pop has the balance 0.
pub proof fn lemma_balance_none<T>(code: Seq<Instruction<T>>)
    requires
        forall|i: int| 0 <= i < code.len() ==> scope_change(#[trigger] code[i]) == 0,
    ensures
        scope_balance(code) == 0,
    decreases code.len(),
{
    if code.len() > 0 {
        lemma_balance_none(code.drop_last());
    }
}

/// The balance of one instruction is what it adds.
pub proof fn lemma_balance_one<T>(i: Instruction<T>)
    ensures
        scope_balance(seq![i]) == scope_change(i),
{
    assert(seq![i].drop_last() =~= Seq::<Instruction<T>>::empty());
    assert(scope_balance(seq![i].drop_last()) == 0);
}

/// A lock-step loop pushes as many scopes as it pops, apart from what its
/// body does.
pub proof fn lemma_group_loop_balanced<T>(
    iters: Seq<VarNameId>,
    targets: Seq<IterTargetExpr>,
    at: int,
    body: Seq<Instruction<T>>,
)
    ensures
        scope_balance(group_loop::<T>(iters, targets, at, body)) == scope_balance(body),
{
    let n = pairs(iters, targets);
    let end = at + 2 * n + body.len() + 4;
    let push = seq![Instruction::<T>::PushScope];
    let pop = seq![Instruction::<T>::PopScope];
    let begin = starts::<T>(iters, targets, end);
    let steps = increments::<T>(iters, targets, end);
    let back = seq![
        Instruction::<T>::Goto(crate::program::ids::InstructionId((at + 1 + n) as usize)),
        Instruction::<T>::PopScope,
    ];
    lemma_balance_one(Instruction::<T>::PushScope);
    lemma_balance_one(Instruction::<T>::PopScope);
    lemma_balance_none(begin);
    lemma_balance_none(steps);
    assert(back.drop_last() =~= seq![
        Instruction::<T>::Goto(crate::program::ids::InstructionId((at + 1 + n) as usize)),
    ]);
    lemma_balance_one(
        Instruction::<T>::Goto(crate::program::ids::InstructionId((at + 1 + n) as usize)),
    );
    assert(scope_balance(back) == -1);
    lemma_balance_sum(push, begin);
    lemma_balance_sum(push + begin, push);
    lemma_balance_sum(push + begin + push, body);
    lemma_balance_sum(push + begin + push + body, pop);
    lemma_balance_sum(push + begin + push + body + pop, steps);
    lemma_balance_sum(push + begin + push + body + pop + steps, back);
}

/// A nested loop pushes as many scopes as it pops, apart from what its body
/// does.
pub proof fn lemma_combination_loop_balanced<T>(
    iters: Seq<VarNameId>,
    targets: Seq<IterTargetExpr>,
    at: int,
    body: Seq<Instruction<T>>,
)
    ensures
        scope_balance(combination_loop::<T>(iters, targets, at, body)) == scope_balance(body),
    decreases iters.len(),
{
    let push = seq![Instruction::<T>::PushScope];
    let pop = seq![Instruction::<T>::PopScope];
    lemma_balance_one(Instruction::<T>::PushScope);
    lemma_balance_one(Instruction::<T>::PopScope);
    if iters.len() == 0 || targets.len() == 0 {
        lemma_balance_sum(push, body);
        lemma_balance_sum(push + body, pop);
    } else {
        let inner = combination_loop::<T>(iters.skip(1), targets.skip(1), at + 2, body);
        lemma_combination_loop_balanced::<T>(iters.skip(1), targets.skip(1), at + 2, body);
        lemma_combination_ends::<T>(iters.skip(1), targets.skip(1), at + 2, body);
        lemma_combination_unfold::<T>(iters, targets, at, body);
        assert(inner =~= push + middle(inner) + pop);
        lemma_balance_sum(push, middle(inner));
        lemma_balance_sum(push + middle(inner), pop);
        lemma_group_loop_balanced::<T>(seq![iters[0]], seq![targets[0]], at, middle(inner));
    }
}

} // verus!
