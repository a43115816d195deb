use testbed::bed::commands::Command;
use testbed::bed::expr::{IterTargetExpr, RangeExpr};
use testbed::bed::templates::TemplateCommand;
use testbed::parser::commands::{build_commands_program, CommandExpr};
use testbed::parser::templates::{build_templates_program, TemplateExpr};
use testbed::parser::{build_combination_loop, build_group_loop, ForLoop, ForLoopType};
use testbed::program::ids::{InstructionId, VarNameId};
use testbed::program::instruction::{Instruction, IterTarget};
use testbed::program::path::VarFieldId;

fn shape<T>(code: &[Instruction<T>]) -> Vec<String> {
    code.iter()
        .map(|i| match i {
            Instruction::PushScope => "push".to_string(),
            Instruction::PopScope => "pop".to_string(),
            Instruction::StartIter { target, iter, jump } => {
                let what = match target {
                    IterTargetExpr::Variable(v) => format!("v{}", v.0),
                    IterTargetExpr::Range { .. } => "range".to_string(),
                };
                format!("start {} in {} else {}", iter.0, what, jump.0)
            }
            Instruction::Increment { target, iter, jump } => {
                let what = match target {
                    IterTarget::Variable(v) => format!("v{}", v.0),
                    IterTarget::Range => "range".to_string(),
                };
                format!("next {} in {} else {}", iter.0, what, jump.0)
            }
            Instruction::ConditionalJump { cond, jump } => format!("unless {} goto {}", cond.var.0, jump.0),
            Instruction::Goto(t) => format!("goto {}", t.0),
            Instruction::Command(_) => "command".to_string(),
            _ => "other".to_string(),
        })
        .collect()
}

fn sleep() -> Instruction<Command> {
    Instruction::Command(Command::Sleep(1))
}

#[test]
fn group_loop_starts_all_then_steps_all() {
    let mut code: Vec<Instruction<Command>> = vec![sleep()];
    build_group_loop(
        &[VarNameId(10), VarNameId(11)],
        vec![
            IterTargetExpr::Variable(VarNameId(0)),
            IterTargetExpr::Range { start: RangeExpr::Integer(0), end: RangeExpr::Integer(3) },
        ],
        &mut code,
        |body: &mut Vec<Instruction<Command>>| body.push(Instruction::Command(Command::Sleep(2))),
    );
    assert_eq!(
        shape(&code),
        vec![
            "command",
            "push",
            "start 10 in v0 else 10",
            "start 11 in range else 10",
            "push",
            "command",
            "pop",
            "next 10 in v0 else 10",
            "next 11 in range else 10",
            "goto 4",
            "pop",
        ]
    );
}

#[test]
fn group_loop_leaves_out_a_variable_without_a_target() {
    let mut code: Vec<Instruction<Command>> = vec![];
    build_group_loop(
        &[VarNameId(10), VarNameId(11)],
        vec![IterTargetExpr::Variable(VarNameId(0))],
        &mut code,
        |_body: &mut Vec<Instruction<Command>>| {},
    );
    assert_eq!(
        shape(&code),
        vec!["push", "start 10 in v0 else 6", "push", "pop", "next 10 in v0 else 6", "goto 2", "pop"]
    );
}

#[test]
fn combination_loop_nests_the_later_variables_inside() {
    let mut code: Vec<Instruction<Command>> = vec![];
    build_combination_loop(
        &[VarNameId(10), VarNameId(11)],
        vec![IterTargetExpr::Variable(VarNameId(0)), IterTargetExpr::Variable(VarNameId(1))],
        &mut code,
        |body: &mut Vec<Instruction<Command>>| body.push(Instruction::Command(Command::Sleep(2))),
    );
    assert_eq!(
        shape(&code),
        vec![
            "push",
            "start 10 in v0 else 12",
            "push",
            "start 11 in v1 else 9",
            "push",
            "command",
            "pop",
            "next 11 in v1 else 9",
            "goto 4",
            "pop",
            "next 10 in v0 else 12",
            "goto 2",
            "pop",
        ]
    );
}

#[test]
fn combination_loop_without_variables_is_its_body_in_a_scope() {
    let mut code: Vec<Instruction<Command>> = vec![];
    build_combination_loop(&[], vec![], &mut code, |body: &mut Vec<Instruction<Command>>| {
        body.push(Instruction::Command(Command::Sleep(2)))
    });
    assert_eq!(shape(&code), vec!["push", "command", "pop"]);
}

#[test]
fn guards_jump_past_their_block() {
    let program = build_commands_program(vec![
        CommandExpr::Command(sleep()),
        CommandExpr::If {
            conditions: vec![VarFieldId::new(VarNameId(3)), VarFieldId::new(VarNameId(4))],
            exprs: vec![
                CommandExpr::Command(sleep()),
                CommandExpr::If { conditions: vec![VarFieldId::new(VarNameId(5))], exprs: vec![] },
            ],
        },
        CommandExpr::Command(sleep()),
    ]);
    assert_eq!(
        shape(&program.0),
        vec![
            "command",
            "unless 3 goto 9",
            "unless 4 goto 9",
            "push",
            "command",
            "unless 5 goto 8",
            "push",
            "pop",
            "pop",
            "command",
        ]
    );
}

#[test]
fn nested_loops_compile_with_absolute_jumps() {
    let inner = CommandExpr::ForLoop {
        for_loop: ForLoop {
            ty: ForLoopType::Group,
            iters: vec![VarNameId(11)],
            targets: vec![IterTargetExpr::Variable(VarNameId(1))],
        },
        exprs: vec![CommandExpr::Command(sleep())],
    };
    let program = build_commands_program(vec![CommandExpr::ForLoop {
        for_loop: ForLoop {
            ty: ForLoopType::Combinations,
            iters: vec![VarNameId(10)],
            targets: vec![IterTargetExpr::Variable(VarNameId(0))],
        },
        exprs: vec![inner],
    }]);
    assert_eq!(
        shape(&program.0),
        vec![
            "push",
            "start 10 in v0 else 14",
            "push",
            "push",
            "start 11 in v1 else 10",
            "push",
            "command",
            "pop",
            "next 11 in v1 else 10",
            "goto 5",
            "pop",
            "pop",
            "next 10 in v0 else 14",
            "goto 2",
            "pop",
        ]
    );
}

#[test]
fn template_programs_compile_like_command_programs() {
    let program = build_templates_program(vec![TemplateExpr::If {
        conditions: vec![VarFieldId::new(VarNameId(3))],
        exprs: vec![TemplateExpr::Command(Instruction::<TemplateCommand>::Goto(InstructionId(0)))],
    }]);
    assert_eq!(shape(&program.0), vec!["unless 3 goto 4", "push", "goto 0", "pop"]);
}
