//! The compiler from structured loops and guarded blocks to flat
//! instructions.

pub mod commands;
pub mod counts;
pub mod laws;
pub mod leaves;
pub mod nests;
pub mod scopes;
pub mod templates;

use crate::bed::expr::IterTargetExpr;
use crate::program::ids::{InstructionId, VarNameId};
use crate::program::instruction::{Instruction, IterTarget};
use crate::program::path::VarFieldId;
use vstd::prelude::*;

verus! {

/// Which of the command programs of a script are to be run: the named
/// ones, `None` standing for the program without a name, or all of them.
#[derive(Clone, Debug)]
pub enum ToRun {
    Specific(Vec<Option<VarNameId>>),
    All,
}

/// How the variables of a loop advance: all together, or each inside the one
/// before it.
#[derive(Clone, Copy, Debug)]
pub enum ForLoopType {
    Group,
    Combinations,
}

/// A loop as it is written: its variables and what each steps over.
#[derive(Debug)]
pub struct ForLoop {
    pub ty: ForLoopType,
    pub iters: Vec<VarNameId>,
    pub targets: Vec<IterTargetExpr>,
}

/// The number of variables that have something to step over.
pub open spec fn pairs(iters: Seq<VarNameId>, targets: Seq<IterTargetExpr>) -> nat {
    if iters.len() <= targets.len() {
        iters.len()
    } else {
        targets.len()
    }
}

/// One `StartIter` for each variable, in order, all jumping to `jump`.
pub open spec fn starts<T>(iters: Seq<VarNameId>, targets: Seq<IterTargetExpr>, jump: int) -> Seq<
    Instruction<T>,
> {
    Seq::new(
        pairs(iters, targets),
        |k: int|
            Instruction::StartIter {
                target: targets[k],
                iter: iters[k],
                jump: InstructionId(jump as usize),
            },
    )
}

/// One `Increment` for each variable, in order, all jumping to `jump`.
pub open spec fn increments<T>(iters: Seq<VarNameId>, targets: Seq<IterTargetExpr>, jump: int) -> Seq<
    Instruction<T>,
> {
    Seq::new(
        pairs(iters, targets),
        |k: int|
            Instruction::Increment {
                target: targets[k].target(),
                iter: iters[k],
                jump: InstructionId(jump as usize),
            },
    )
}

/// What a lock-step loop emits before its body when nothing is known yet of
/// where the loop ends: a scope for the loop, the starts with their jumps
/// left at zero, and a scope for the body.
pub open spec fn group_open<T>(iters: Seq<VarNameId>, targets: Seq<IterTargetExpr>) -> Seq<
    Instruction<T>,
> {
    seq![Instruction::PushScope] + starts(iters, targets, 0) + seq![Instruction::PushScope]
}

/// The code of a lock-step loop that stands at `at` and has the code `body`
/// for its body. Every variable starts before the body and steps after it;
/// each start and each step jumps to the end of the loop, so the loop is
/// over as soon as one variable has nothing left.
pub open spec fn group_loop<T>(
    iters: Seq<VarNameId>,
    targets: Seq<IterTargetExpr>,
    at: int,
    body: Seq<Instruction<T>>,
) -> Seq<Instruction<T>> {
    let n = pairs(iters, targets);
    let end = at + 2 * n + body.len() + 4;
    seq![Instruction::PushScope] + starts(iters, targets, end) + seq![Instruction::PushScope] + body
        + seq![Instruction::PopScope] + increments(iters, targets, end) + seq![
        Instruction::Goto(InstructionId((at + 1 + n) as usize)),
        Instruction::PopScope,
    ]
}

/// The instruction `i` with its jump, if it has one, set to `jump`.
pub open spec fn with_jump<T>(i: Instruction<T>, jump: usize) -> Instruction<T> {
    match i {
        Instruction::StartIter { target, iter, jump: _ } => Instruction::StartIter {
            target,
            iter,
            jump: InstructionId(jump),
        },
        Instruction::Increment { target, iter, jump: _ } => Instruction::Increment {
            target,
            iter,
            jump: InstructionId(jump),
        },
        Instruction::ConditionalJump { cond, jump: _ } => Instruction::ConditionalJump {
            cond,
            jump: InstructionId(jump),
        },
        other => other,
    }
}

/// Sets the jump of the instruction at `i`, if it has one, to `jump`.
pub fn set_jump<T>(instructions: &mut Vec<Instruction<T>>, i: usize, jump: usize)
    requires
        i < old(instructions)@.len(),
    ensures
        final(instructions)@ == old(instructions)@.update(
            i as int,
            with_jump(old(instructions)@[i as int], jump),
        ),
{
    let has_jump: bool = match &instructions[i] {
        Instruction::StartIter { .. } => true,
        Instruction::Increment { .. } => true,
        Instruction::ConditionalJump { .. } => true,
        _ => false,
    };
    if !has_jump {
        assert(instructions@ =~= old(instructions)@.update(
            i as int,
            with_jump(old(instructions)@[i as int], jump),
        ));
        return ;
    }
    match &mut instructions[i] {
        Instruction::StartIter { jump: slot, .. } => {
            *slot = InstructionId(jump);
        },
        Instruction::Increment { jump: slot, .. } => {
            *slot = InstructionId(jump);
        },
        Instruction::ConditionalJump { jump: slot, .. } => {
            *slot = InstructionId(jump);
        },
        _ => {},
    }
}

/// Sets the jumps of the instructions from `from` up to `to` to `jump`.
pub fn set_jumps<T>(instructions: &mut Vec<Instruction<T>>, from: usize, to: usize, jump: usize)
    requires
        from <= to <= old(instructions)@.len(),
    ensures
        final(instructions)@.len() == old(instructions)@.len(),
        forall|i: int|
            0 <= i < old(instructions)@.len() ==> #[trigger] final(instructions)@[i] == if from
                <= i < to {
                with_jump(old(instructions)@[i], jump)
            } else {
                old(instructions)@[i]
            },
{
    let mut i: usize = from;
    while i < to
        invariant
            from <= i <= to,
            to <= instructions@.len(),
            instructions@.len() == old(instructions)@.len(),
            forall|j: int|
                0 <= j < old(instructions)@.len() ==> #[trigger] instructions@[j] == if from <= j
                    < i {
                    with_jump(old(instructions)@[j], jump)
                } else {
                    old(instructions)@[j]
                },
        decreases to - i,
    {
        set_jump(instructions, i, jump);
        i += 1;
    }
}

/// Whether `now` is `before` with something added at its end.
pub open spec fn extends<T>(before: Seq<Instruction<T>>, now: Seq<Instruction<T>>) -> bool {
    before.len() <= now.len() && now.subrange(0, before.len() as int) == before
}

/// Emits what a lock-step loop starts with, and returns what each variable
/// steps over.
#[verifier::rlimit(40)]
fn open_group<T>(
    iters: &[VarNameId],
    targets: Vec<IterTargetExpr>,
    instructions: &mut Vec<Instruction<T>>,
) -> (kinds: Vec<IterTarget>)
    ensures
        final(instructions)@ == old(instructions)@ + group_open(iters@, targets@),
        kinds@.len() == pairs(iters@, targets@),
        forall|k: int| 0 <= k < kinds@.len() ==> (#[trigger] kinds@[k]) == targets@[k].target(),
{
    let ghost all = targets@;
    let mut targets = targets;
    let mut kinds: Vec<IterTarget> = Vec::new();
    instructions.push(Instruction::PushScope);
    let mut k: usize = 0;
    while k < iters.len() && targets.len() > 0
        invariant
            k <= iters@.len(),
            k + targets@.len() == all.len(),
            targets@ == all.skip(k as int),
            kinds@.len() == k,
            forall|j: int| 0 <= j < k ==> (#[trigger] kinds@[j]) == all[j].target(),
            instructions@.len() == old(instructions)@.len() + 1 + k,
            instructions@.subrange(0, old(instructions)@.len() as int) == old(instructions)@,
            instructions@[old(instructions)@.len() as int] == Instruction::<T>::PushScope,
            forall|j: int|
                0 <= j < k ==> #[trigger] instructions@[old(instructions)@.len() + 1 + j]
                    == (Instruction::<T>::StartIter {
                    target: all[j],
                    iter: iters@[j],
                    jump: InstructionId(0),
                }),
        decreases targets@.len(),
    {
        let ghost before = instructions@;
        let target = targets.remove(0);
        assert(targets@ =~= all.skip(k + 1));
        kinds.push(target.to_itertarget());
        instructions.push(Instruction::StartIter { target, iter: iters[k], jump: InstructionId(0) });
        assert(instructions@.subrange(0, old(instructions)@.len() as int) =~= before.subrange(
            0,
            old(instructions)@.len() as int,
        ));
        k += 1;
    }
    let ghost started = instructions@;
    instructions.push(Instruction::PushScope);
    assert(instructions@.subrange(0, old(instructions)@.len() as int) =~= started.subrange(
        0,
        old(instructions)@.len() as int,
    ));
    proof {
        assert(k == pairs(iters@, all));
        let want = old(instructions)@ + group_open::<T>(iters@, all);
        let base = old(instructions)@.len();
        assert(instructions@.len() == want.len());
        assert forall|i: int| 0 <= i < want.len() implies instructions@[i] == want[i] by {
            if i < base {
                assert(instructions@.subrange(0, base as int)[i] == instructions@[i]);
            } else if i == base {
            } else if i < base + 1 + k {
                assert(instructions@[base + 1 + (i - base - 1)] == want[i]);
            } else {
            }
        }
        assert(instructions@ =~= want);
    }
    kinds
}

/// Emits what a lock-step loop ends with, after its body, and sets the
/// jumps of the loop to its end.
#[verifier::rlimit(40)]
fn close_group<T>(
    iters: &[VarNameId],
    kinds: &Vec<IterTarget>,
    instructions: &mut Vec<Instruction<T>>,
    at: usize,
    Ghost(targets): Ghost<Seq<IterTargetExpr>>,
)
    requires
        kinds@.len() == pairs(iters@, targets),
        forall|k: int| 0 <= k < kinds@.len() ==> (#[trigger] kinds@[k]) == targets[k].target(),
        at + kinds@.len() + 2 <= old(instructions)@.len(),
        old(instructions)@.subrange(at as int, at + kinds@.len() + 2) == group_open::<T>(
            iters@,
            targets,
        ),
    ensures
        final(instructions)@ == old(instructions)@.subrange(0, at as int) + group_loop(
            iters@,
            targets,
            at as int,
            old(instructions)@.skip(at + kinds@.len() + 2),
        ),
{
    let n: usize = kinds.len();
    let ghost body = instructions@.skip(at + n + 2);
    let ghost open = group_open::<T>(iters@, targets);
    assert(forall|j: int| 0 <= j < n + 2 ==> instructions@[at + j] == #[trigger] open[j]) by {
        assert forall|j: int| 0 <= j < n + 2 implies instructions@[at + j] == #[trigger] open[j] by {
            assert(instructions@.subrange(at as int, at + n + 2)[j] == instructions@[at + j]);
        }
    }
    instructions.push(Instruction::PopScope);
    let increment_start: usize = instructions.len();
    let mut k: usize = 0;
    while k < n
        invariant
            k <= n,
            n == kinds@.len(),
            n == pairs(iters@, targets),
            instructions@.len() == increment_start + k,
            increment_start == old(instructions)@.len() + 1,
            instructions@.subrange(0, increment_start as int) == old(instructions)@.push(
                Instruction::PopScope,
            ),
            forall|j: int|
                0 <= j < k ==> #[trigger] instructions@[increment_start + j]
                    == (Instruction::<T>::Increment {
                    target: kinds@[j],
                    iter: iters@[j],
                    jump: InstructionId(0),
                }),
        decreases n - k,
    {
        let ghost before = instructions@;
        instructions.push(
            Instruction::Increment { target: kinds[k], iter: iters[k], jump: InstructionId(0) },
        );
        assert(instructions@.subrange(0, increment_start as int) =~= before.subrange(
            0,
            increment_start as int,
        ));
        k += 1;
    }
    let goto: usize = at + 1 + n;
    let ghost filled = instructions@;
    instructions.push(Instruction::Goto(InstructionId(goto)));
    let end_idx: usize = instructions.len();
    instructions.push(Instruction::PopScope);
    set_jumps(instructions, at + 1, goto, end_idx);
    set_jumps(instructions, increment_start, end_idx, end_idx);
    proof {
        let want = old(instructions)@.subrange(0, at as int) + group_loop(
            iters@,
            targets,
            at as int,
            body,
        );
        assert(end_idx == at + 2 * n + body.len() + 4);
        assert(instructions@.len() == want.len());
        assert forall|i: int| 0 <= i < want.len() implies instructions@[i] == want[i] by {
            if i < at {
                assert(filled.subrange(0, increment_start as int)[i] == filled[i]);
            } else if i < at + n + 2 {
                assert(filled.subrange(0, increment_start as int)[i] == filled[i]);
                assert(old(instructions)@[at + (i - at)] == open[i - at]);
            } else if i < increment_start {
                assert(filled.subrange(0, increment_start as int)[i] == filled[i]);
                if i < increment_start - 1 {
                    assert(body[i - (at + n + 2)] == old(instructions)@[i]);
                }
            } else if i < end_idx - 1 {
                assert(filled[increment_start + (i - increment_start)] == (Instruction::<
                    T,
                >::Increment {
                    target: kinds@[i - increment_start],
                    iter: iters@[i - increment_start],
                    jump: InstructionId(0),
                }));
            } else {
            }
        }
        assert(instructions@ =~= want);
    }
}

/// Emits a lock-step loop over the pairs of `iters` and `targets`, with the
/// body that `f` emits. A variable without a partner is left out.
pub fn build_group_loop<T, F: FnOnce(&mut Vec<Instruction<T>>)>(
    iters: &[VarNameId],
    targets: Vec<IterTargetExpr>,
    instructions: &mut Vec<Instruction<T>>,
    f: F,
)
    requires
        forall|a: &mut Vec<Instruction<T>>| #[trigger] f.requires((a,)),
        forall|a: &mut Vec<Instruction<T>>| #[trigger] f.ensures((a,), ()) ==> extends(a@, final(a)@),
    ensures
        exists|a: &mut Vec<Instruction<T>>|
            a@ == old(instructions)@ + group_open(iters@, targets@) && #[trigger] f.ensures(
                (a,),
                (),
            ) && final(instructions)@ == old(instructions)@ + group_loop(
                iters@,
                targets@,
                old(instructions)@.len() as int,
                final(a)@.skip(a@.len() as int),
            ),
{
    let at: usize = instructions.len();
    let ghost all = targets@;
    let kinds = open_group(iters, targets, instructions);
    let ghost opened = instructions@;
    f(instructions);
    proof {
        assert(instructions@.subrange(0, opened.len() as int) == opened);
        assert(instructions@.subrange(at as int, at + kinds@.len() + 2) =~= group_open::<T>(
            iters@,
            all,
        )) by {
            assert forall|j: int| 0 <= j < kinds@.len() + 2 implies instructions@[at + j]
                == group_open::<T>(iters@, all)[j] by {
                assert(instructions@.subrange(0, opened.len() as int)[at + j] == opened[at + j]);
            }
        }
        assert(instructions@.subrange(0, at as int) =~= old(instructions)@) by {
            assert forall|j: int| 0 <= j < at implies instructions@[j] == old(instructions)@[j] by {
                assert(instructions@.subrange(0, opened.len() as int)[j] == opened[j]);
            }
        }
        assert(instructions@.skip(at + kinds@.len() + 2) =~= instructions@.skip(
            opened.len() as int,
        ));
    }
    close_group(iters, &kinds, instructions, at, Ghost(all));
}

/// What a nested loop emits before its body when nothing is known yet of
/// where its loops end: for each variable a scope and its start, with the
/// jump left at zero, and then a scope for the body.
pub open spec fn combination_open<T>(iters: Seq<VarNameId>, targets: Seq<IterTargetExpr>) -> Seq<
    Instruction<T>,
>
    decreases iters.len(),
{
    if iters.len() == 0 || targets.len() == 0 {
        seq![Instruction::PushScope]
    } else {
        seq![
            Instruction::PushScope,
            Instruction::StartIter { target: targets[0], iter: iters[0], jump: InstructionId(0) },
        ] + combination_open(iters.skip(1), targets.skip(1))
    }
}

/// The code of a nested loop that stands at `at` and has the code `body`
/// for its body: the loop of the first variable around the loop of the
/// second and so on, so that the last variable steps fastest and the body
/// runs once for each combination.
pub open spec fn combination_loop<T>(
    iters: Seq<VarNameId>,
    targets: Seq<IterTargetExpr>,
    at: int,
    body: Seq<Instruction<T>>,
) -> Seq<Instruction<T>>
    decreases iters.len(),
{
    if iters.len() == 0 || targets.len() == 0 {
        seq![Instruction::PushScope] + body + seq![Instruction::PopScope]
    } else {
        let inner = combination_loop(iters.skip(1), targets.skip(1), at + 2, body);
        let end = at + inner.len() + 4;
        seq![
            Instruction::PushScope,
            Instruction::StartIter {
                target: targets[0],
                iter: iters[0],
                jump: InstructionId(end as usize),
            },
        ] + inner + seq![
            Instruction::Increment {
                target: targets[0].target(),
                iter: iters[0],
                jump: InstructionId(end as usize),
            },
            Instruction::Goto(InstructionId((at + 2) as usize)),
            Instruction::PopScope,
        ]
    }
}

/// Emits a nested loop over the pairs of `iters` and `targets`, with the
/// body that `f` emits. A variable without a partner is left out.
#[verifier::rlimit(40)]
pub fn build_combination_loop<T, F: FnOnce(&mut Vec<Instruction<T>>)>(
    iters: &[VarNameId],
    targets: Vec<IterTargetExpr>,
    instructions: &mut Vec<Instruction<T>>,
    f: F,
)
    requires
        forall|a: &mut Vec<Instruction<T>>| #[trigger] f.requires((a,)),
        forall|a: &mut Vec<Instruction<T>>| #[trigger] f.ensures((a,), ()) ==> extends(a@, final(a)@),
    ensures
        exists|a: &mut Vec<Instruction<T>>|
            a@ == old(instructions)@ + combination_open(iters@, targets@) && #[trigger] f.ensures(
                (a,),
                (),
            ) && final(instructions)@ == old(instructions)@ + combination_loop(
                iters@,
                targets@,
                old(instructions)@.len() as int,
                final(a)@.skip(a@.len() as int),
            ),
    decreases iters@.len(),
{
    let ghost all = targets@;
    if iters.len() == 0 || targets.len() == 0 {
        instructions.push(Instruction::PushScope);
        let ghost opened = instructions@;
        f(instructions);
        let ghost body = instructions@.skip(opened.len() as int);
        proof {
            assert(instructions@.subrange(0, opened.len() as int) == opened);
            assert(instructions@ =~= opened + body);
        }
        instructions.push(Instruction::PopScope);
        proof {
            assert(opened =~= old(instructions)@ + combination_open::<T>(iters@, all));
            assert(instructions@ =~= old(instructions)@ + combination_loop(
                iters@,
                all,
                old(instructions)@.len() as int,
                body,
            ));
        }
        return ;
    }
    let at: usize = instructions.len();
    let this_iter = iters[0];
    let mut targets = targets;
    let this_target = targets.remove(0);
    let kind = this_target.to_itertarget();
    assert(targets@ =~= all.skip(1));
    instructions.push(Instruction::PushScope);
    let iter_start: usize = instructions.len();
    instructions.push(
        Instruction::StartIter { target: this_target, iter: this_iter, jump: InstructionId(0) },
    );
    let goto: usize = instructions.len();
    let ghost headed = instructions@;
    let rest = vstd::slice::slice_subrange(iters, 1, iters.len());
    assert(rest@ =~= iters@.skip(1));
    build_combination_loop(rest, targets, instructions, f);
    let ghost inner_done = instructions@;
    let ghost a = choose|a: &mut Vec<Instruction<T>>|
        a@ == headed + combination_open(rest@, all.skip(1)) && #[trigger] f.ensures((a,), ())
            && inner_done == headed + combination_loop(
            rest@,
            all.skip(1),
            headed.len() as int,
            final(a)@.skip(a@.len() as int),
        );
    let ghost body = final(a)@.skip(a@.len() as int);
    let ghost inner = combination_loop(rest@, all.skip(1), headed.len() as int, body);
    let increment_start: usize = instructions.len();
    instructions.push(Instruction::Increment { target: kind, iter: this_iter, jump: InstructionId(0) });
    instructions.push(Instruction::Goto(InstructionId(goto)));
    let end_idx: usize = instructions.len();
    instructions.push(Instruction::PopScope);
    let ghost pushed = instructions@;
    set_jump(instructions, iter_start, end_idx);
    set_jump(instructions, increment_start, end_idx);
    proof {
        assert(a@ =~= old(instructions)@ + combination_open::<T>(iters@, all));
        let want = old(instructions)@ + combination_loop(iters@, all, at as int, body);
        assert(end_idx == at + inner.len() + 4);
        assert(instructions@.len() == want.len());
        assert forall|i: int| 0 <= i < want.len() implies instructions@[i] == want[i] by {
            if i < at + 2 {
                assert(inner_done[i] == headed[i]);
            } else if i < at + 2 + inner.len() {
                assert(inner_done[i] == inner[i - (at + 2)]);
            } else {
            }
        }
        assert(instructions@ =~= want);
    }
}

impl ForLoop {
    /// The code that this loop, with the body that `f` emits, compiles to
    /// when it stands at `at`.
    pub open spec fn code<T>(self, at: int, body: Seq<Instruction<T>>) -> Seq<Instruction<T>> {
        match self.ty {
            ForLoopType::Group => group_loop(self.iters@, self.targets@, at, body),
            ForLoopType::Combinations => combination_loop(self.iters@, self.targets@, at, body),
        }
    }

    /// What this loop emits before its body.
    pub open spec fn opening<T>(self) -> Seq<Instruction<T>> {
        match self.ty {
            ForLoopType::Group => group_open(self.iters@, self.targets@),
            ForLoopType::Combinations => combination_open(self.iters@, self.targets@),
        }
    }

    /// Emits this loop with the body that `f` emits.
    pub fn build<T, F: FnOnce(&mut Vec<Instruction<T>>)>(
        self,
        instructions: &mut Vec<Instruction<T>>,
        f: F,
    )
        requires
            forall|a: &mut Vec<Instruction<T>>| #[trigger] f.requires((a,)),
            forall|a: &mut Vec<Instruction<T>>| #[trigger]
                f.ensures((a,), ()) ==> extends(a@, final(a)@),
        ensures
            exists|a: &mut Vec<Instruction<T>>|
                a@ == old(instructions)@ + self.opening::<T>() && #[trigger] f.ensures((a,), ())
                    && final(instructions)@ == old(instructions)@ + self.code(
                    old(instructions)@.len() as int,
                    final(a)@.skip(a@.len() as int),
                ),
    {
        let ForLoop { ty, iters, targets } = self;
        match ty {
            ForLoopType::Group => build_group_loop(iters.as_slice(), targets, instructions, f),
            ForLoopType::Combinations => build_combination_loop(
                iters.as_slice(),
                targets,
                instructions,
                f,
            ),
        }
    }
}

/// One `ConditionalJump` for each condition, in order, all jumping to `jump`.
pub open spec fn guards<T>(conditions: Seq<VarFieldId>, jump: int) -> Seq<Instruction<T>> {
    Seq::new(
        conditions.len(),
        |k: int| Instruction::ConditionalJump { cond: conditions[k], jump: InstructionId(jump as usize) },
    )
}

/// The code of a guarded block that stands at `at` and has the code `body`
/// for its body: one guard for each condition, each jumping past the block,
/// and the body in a scope of its own.
pub open spec fn guarded<T>(conditions: Seq<VarFieldId>, at: int, body: Seq<Instruction<T>>) -> Seq<
    Instruction<T>,
> {
    guards(conditions, at + conditions.len() + body.len() + 2) + seq![Instruction::PushScope] + body
        + seq![Instruction::PopScope]
}

/// Emits the guards of a block, with their jumps left at zero, and the
/// scope of its body.
pub(crate) fn open_guarded<T>(conditions: Vec<VarFieldId>, instructions: &mut Vec<Instruction<T>>)
    ensures
        final(instructions)@ == old(instructions)@ + guards(conditions@, 0) + seq![
            Instruction::PushScope,
        ],
{
    let ghost all = conditions@;
    let total: usize = conditions.len();
    let mut conditions = conditions;
    let mut k: usize = 0;
    while conditions.len() > 0
        invariant
            total == all.len(),
            k + conditions@.len() == all.len(),
            conditions@ == all.skip(k as int),
            instructions@.len() == old(instructions)@.len() + k,
            instructions@.subrange(0, old(instructions)@.len() as int) == old(instructions)@,
            forall|j: int|
                0 <= j < k ==> #[trigger] instructions@[old(instructions)@.len() + j]
                    == (Instruction::<T>::ConditionalJump { cond: all[j], jump: InstructionId(0) }),
        decreases conditions@.len(),
    {
        let ghost before = instructions@;
        let cond = conditions.remove(0);
        assert(conditions@ =~= all.skip(k + 1));
        instructions.push(Instruction::ConditionalJump { cond, jump: InstructionId(0) });
        assert(instructions@.subrange(0, old(instructions)@.len() as int) =~= before.subrange(
            0,
            old(instructions)@.len() as int,
        ));
        k += 1;
    }
    let ghost before = instructions@;
    instructions.push(Instruction::PushScope);
    proof {
        let want = old(instructions)@ + guards::<T>(all, 0) + seq![Instruction::PushScope];
        let base = old(instructions)@.len();
        assert(instructions@.len() == want.len());
        assert forall|i: int| 0 <= i < want.len() implies instructions@[i] == want[i] by {
            if i < base {
                assert(before.subrange(0, base as int)[i] == before[i]);
            } else if i < base + k {
                assert(before[base + (i - base)] == want[i]);
            } else {
            }
        }
        assert(instructions@ =~= want);
    }
}

/// Emits the end of a guarded block of `n` guards that stands at `at`, after
/// its body, and sets the jumps of the guards past the block.
#[verifier::rlimit(40)]
pub(crate) fn close_guarded<T>(
    instructions: &mut Vec<Instruction<T>>,
    at: usize,
    n: usize,
    Ghost(conditions): Ghost<Seq<VarFieldId>>,
)
    requires
        n == conditions.len(),
        at + n + 1 <= old(instructions)@.len(),
        old(instructions)@.subrange(at as int, at + n + 1) == guards::<T>(conditions, 0) + seq![
            Instruction::PushScope,
        ],
    ensures
        final(instructions)@ == old(instructions)@.subrange(0, at as int) + guarded(
            conditions,
            at as int,
            old(instructions)@.skip(at + n + 1),
        ),
{
    let ghost open = guards::<T>(conditions, 0) + seq![Instruction::PushScope];
    let ghost body = instructions@.skip(at + n + 1);
    assert forall|j: int| 0 <= j < n + 1 implies instructions@[at + j] == #[trigger] open[j] by {
        assert(instructions@.subrange(at as int, at + n + 1)[j] == instructions@[at + j]);
    }
    instructions.push(Instruction::PopScope);
    let jump_target: usize = instructions.len();
    set_jumps(instructions, at, at + n, jump_target);
    proof {
        let want = old(instructions)@.subrange(0, at as int) + guarded(
            conditions,
            at as int,
            body,
        );
        assert(instructions@.len() == want.len());
        assert forall|i: int| 0 <= i < want.len() implies instructions@[i] == want[i] by {
            if i < at {
            } else if i < at + n + 1 {
                assert(old(instructions)@[at + (i - at)] == open[i - at]);
            } else if i < jump_target - 1 {
                assert(body[i - (at + n + 1)] == old(instructions)@[i]);
            } else {
            }
        }
        assert(instructions@ =~= want);
    }
}

} // verus!
