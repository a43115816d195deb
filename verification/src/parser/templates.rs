//! Programs of template commands.

use super::{
    close_guarded, extends, guarded, guards, open_guarded, ForLoop,
};
use crate::bed::templates::TemplateCommand;
use crate::program::instruction::{Instruction, Program};
use crate::program::path::VarFieldId;
use vstd::prelude::*;

verus! {

/// A statement of a template program: one instruction, a loop around
/// statements, or statements behind guards.
#[derive(Debug)]
pub enum TemplateExpr {
    Command(Instruction<TemplateCommand>),
    ForLoop { for_loop: ForLoop, exprs: Vec<TemplateExpr> },
    If { conditions: Vec<VarFieldId>, exprs: Vec<TemplateExpr> },
}

/// The code of the first `n` statements, one after the other, the first
/// standing at `at`.
pub open spec fn compiled_all(exprs: Vec<TemplateExpr>, n: nat, at: int) -> Seq<Instruction<TemplateCommand>>
    decreases exprs, n,
{
    if n == 0 || n > exprs@.len() {
        Seq::empty()
    } else {
        let head = compiled_all(exprs, (n - 1) as nat, at);
        head + compiled(exprs@[n - 1], at + head.len())
    }
}

/// The code of a statement that stands at `at`: the instruction itself, the
/// loop around the code of its statements, or the guards before the code of
/// theirs.
pub open spec fn compiled(expr: TemplateExpr, at: int) -> Seq<Instruction<TemplateCommand>>
    decreases expr, 0nat,
{
    match expr {
        TemplateExpr::Command(command) => seq![command],
        TemplateExpr::ForLoop { for_loop, exprs } => for_loop.code(
            at,
            compiled_all(exprs, exprs@.len(), at + for_loop.opening::<TemplateCommand>().len()),
        ),
        TemplateExpr::If { conditions, exprs } => guarded(
            conditions@,
            at,
            compiled_all(exprs, exprs@.len(), at + conditions@.len() + 1),
        ),
    }
}

/// Emits the code of the statements, one after the other.
pub fn build_all(exprs: Vec<TemplateExpr>, instructions: &mut Vec<Instruction<TemplateCommand>>)
    ensures
        final(instructions)@ == old(instructions)@ + compiled_all(
            exprs,
            exprs@.len(),
            old(instructions)@.len() as int,
        ),
    decreases exprs,
{
    let ghost all = exprs;
    let ghost at = instructions@.len() as int;
    for expr in it: exprs.into_iter()
        invariant
            it.seq() == all@,
            instructions@ == old(instructions)@ + compiled_all(all, it.index() as nat, at),
            at == old(instructions)@.len(),
    {
        let ghost before = instructions@;
        assert(expr == all@[it.index() as int]);
        build_expr(expr, instructions);
        assert(instructions@ =~= old(instructions)@ + compiled_all(
            all,
            (it.index() + 1) as nat,
            at,
        ));
    }
}

/// Emits the code of a statement.
pub fn build_expr(expr: TemplateExpr, instructions: &mut Vec<Instruction<TemplateCommand>>)
    ensures
        final(instructions)@ == old(instructions)@ + compiled(
            expr,
            old(instructions)@.len() as int,
        ),
    decreases expr,
{
    match expr {
        TemplateExpr::Command(command) => {
            instructions.push(command);
            assert(instructions@ =~= old(instructions)@ + seq![command]);
        },
        TemplateExpr::ForLoop { for_loop, exprs } => {
            let body = |b: &mut Vec<Instruction<TemplateCommand>>|
                ensures
                    final(b)@ == old(b)@ + compiled_all(exprs, exprs@.len(), old(b)@.len() as int),
                {
                    build_all(exprs, b);
                };
            proof {
                assert forall|a: &mut Vec<Instruction<TemplateCommand>>| #[trigger]
                    body.ensures((a,), ()) implies extends(a@, final(a)@) by {
                    assert(final(a)@.subrange(0, a@.len() as int) =~= a@);
                }
            }
            for_loop.build(instructions, body);
            proof {
                let a = choose|a: &mut Vec<Instruction<TemplateCommand>>|
                    a@ == old(instructions)@ + for_loop.opening::<TemplateCommand>() && #[trigger]
                    body.ensures((a,), ()) && instructions@ == old(instructions)@ + for_loop.code(
                        old(instructions)@.len() as int,
                        final(a)@.skip(a@.len() as int),
                    );
                assert(final(a)@.skip(a@.len() as int) =~= compiled_all(
                    exprs,
                    exprs@.len(),
                    a@.len() as int,
                ));
            }
        },
        TemplateExpr::If { conditions, exprs } => {
            let start: usize = instructions.len();
            let n: usize = conditions.len();
            let ghost conds = conditions@;
            open_guarded(conditions, instructions);
            let ghost opened = instructions@;
            build_all(exprs, instructions);
            proof {
                assert(instructions@.subrange(start as int, start + n + 1) =~= guards::<TemplateCommand>(
                    conds,
                    0,
                ) + seq![Instruction::PushScope]);
                assert(instructions@.subrange(0, start as int) =~= old(instructions)@);
                assert(instructions@.skip(start + n + 1) =~= compiled_all(
                    exprs,
                    exprs@.len(),
                    start + n + 1,
                ));
            }
            close_guarded(instructions, start, n, Ghost(conds));
        },
    }
}

/// The program that the statements compile to.
pub fn build_templates_program(exprs: Vec<TemplateExpr>) -> (r: Program<TemplateCommand>)
    ensures
        r.0@ == compiled_all(exprs, exprs@.len(), 0),
{
    let mut instructions: Vec<Instruction<TemplateCommand>> = Vec::new();
    build_all(exprs, &mut instructions);
    assert(instructions@ =~= compiled_all(exprs, exprs@.len(), 0));
    Program(instructions)
}

} // verus!
