use std::collections::HashMap;
use testbed::bed::commands::Command;
use testbed::bed::expr::{IterTargetExpr, ObjectExpr, StringExpr, StringInstance, StructExpr};
use testbed::parser::commands::{build_commands_program, CommandExpr};
use testbed::parser::{ForLoop, ForLoopType};
use testbed::program::ids::{Shutdown, VarNameId};
use testbed::program::instruction::{Instruction, Program};
use testbed::program::load::ObjectDeserialize;
use testbed::program::names::VarNames;
use testbed::program::object::Object;
use testbed::program::path::VariableAccessError;
use testbed::program::run::{Executable, RunEnd};
use testbed::program::state::ProgramState;

struct Counting {
    names: VarNames,
    bodies: usize,
    seen: Vec<Vec<usize>>,
    depths: Vec<usize>,
}

fn offset_of(state: &ProgramState, iter: usize) -> Option<usize> {
    for scope in state.scopes().iter().rev() {
        if let Some(Object::Ref(r)) = scope.0.get(&iter) {
            return Some(r.offset);
        }
    }
    None
}

impl Executable<Command> for Counting {
    fn shutdown(&mut self) {}

    fn finish(&mut self, _state: &mut ProgramState, _shutdown: &Shutdown) {}

    fn var_names_mut(&mut self) -> &mut VarNames {
        &mut self.names
    }

    fn execute(
        &mut self,
        _command: &Command,
        state: &mut ProgramState,
        _shutdown: &Shutdown,
    ) -> Result<(), VariableAccessError> {
        self.bodies += 1;
        self.seen.push((100..103).filter_map(|iter| offset_of(state, iter)).collect());
        self.depths.push(state.depth());
        Ok(())
    }

    fn print(&self, _program: &ProgramState, _object: &Object) {}

    fn load(&mut self, _path: &str) -> Option<ObjectDeserialize> {
        None
    }
}

fn list_of_length(n: usize) -> ObjectExpr {
    ObjectExpr::List(
        (0..n)
            .map(|i| {
                ObjectExpr::Struct(StructExpr {
                    base: StringExpr(vec![StringInstance::String(format!("v{i}"))]),
                    properties: HashMap::new(),
                })
            })
            .collect(),
    )
}

fn loop_over(ty: ForLoopType, lens: &[usize], commands: usize) -> Program<Command> {
    let mut exprs: Vec<CommandExpr> = lens
        .iter()
        .enumerate()
        .map(|(k, n)| {
            CommandExpr::Command(Instruction::CreateVar {
                target: VarNameId(k),
                scope: None,
                value: list_of_length(*n),
            })
        })
        .collect();
    exprs.push(CommandExpr::ForLoop {
        for_loop: ForLoop {
            ty,
            iters: (0..lens.len()).map(|k| VarNameId(100 + k)).collect(),
            targets: (0..lens.len()).map(|k| IterTargetExpr::Variable(VarNameId(k))).collect(),
        },
        exprs: (0..commands).map(|_| CommandExpr::Command(Instruction::Command(Command::Sleep(0)))).collect(),
    });
    build_commands_program(exprs)
}

fn visits(program: &Program<Command>) -> Counting {
    let mut counting = Counting { names: VarNames::default(), bodies: 0, seen: vec![], depths: vec![] };
    let mut state = ProgramState::new();
    state.new_scope();
    let shutdown = Shutdown::new();
    assert_eq!(program.run(&mut counting, &mut state, &shutdown, u64::MAX).unwrap(), RunEnd::Finished);
    counting
}

fn run_for(program: &Program<Command>, max_steps: u64) -> (Result<RunEnd, (usize, VariableAccessError)>, usize, usize) {
    let mut counting = Counting { names: VarNames::default(), bodies: 0, seen: vec![], depths: vec![] };
    let mut state = ProgramState::new();
    state.new_scope();
    let shutdown = Shutdown::new();
    let end = program.run(&mut counting, &mut state, &shutdown, max_steps);
    (end, counting.bodies, state.depth())
}

#[test]
fn a_lock_step_loop_takes_the_instructions_of_as_many_passes_as_its_shortest_target_has_steps() {
    let program = loop_over(ForLoopType::Group, &[3, 5, 2], 1);
    assert_eq!(program.0.len(), 3 + 12);
    // Three assignments, then 2 * (3 + 3 + 1) + 2 + 2 instructions of the loop.
    let (end, bodies, depth) = run_for(&program, 3 + 18);
    assert_eq!(end.unwrap(), RunEnd::Finished);
    assert_eq!(bodies, 2);
    assert_eq!(depth, 1);
    let (end, bodies, depth) = run_for(&program, 3 + 17);
    assert_eq!(end.unwrap(), RunEnd::Paused(14));
    assert_eq!(bodies, 2);
    assert_eq!(depth, 2);
}

#[test]
fn a_lock_step_loop_with_a_target_without_steps_is_left_at_once() {
    let program = loop_over(ForLoopType::Group, &[2, 0, 4], 1);
    // The scope of the loop, one start that binds, one that jumps, and the pop.
    let (end, bodies, depth) = run_for(&program, 3 + 4);
    assert_eq!(end.unwrap(), RunEnd::Finished);
    assert_eq!(bodies, 0);
    assert_eq!(depth, 1);
    let (end, _, _) = run_for(&program, 3 + 3);
    assert_eq!(end.unwrap(), RunEnd::Paused(program.0.len() - 1));
}

#[test]
fn a_lock_step_loop_without_a_body_makes_its_passes_all_the_same() {
    let program = loop_over(ForLoopType::Group, &[3, 5, 2], 0);
    // 2 * (2 + 3 + 1) + 2 + 2 instructions of the loop.
    let (end, bodies, depth) = run_for(&program, 3 + 16);
    assert_eq!(end.unwrap(), RunEnd::Finished);
    assert_eq!(bodies, 0);
    assert_eq!(depth, 1);
    let (end, _, _) = run_for(&program, 3 + 15);
    assert_eq!(end.unwrap(), RunEnd::Paused(program.0.len() - 1));
}

#[test]
fn a_nested_loop_takes_the_instructions_of_its_body_once_for_each_combination() {
    let program = loop_over(ForLoopType::Combinations, &[3, 5, 2], 1);
    assert_eq!(program.0.len(), 3 + 5 * 3 + 1 + 2);
    // Without a body the loop takes 194 instructions; the one command adds 30.
    let (end, bodies, depth) = run_for(&program, 3 + 194 + 30);
    assert_eq!(end.unwrap(), RunEnd::Finished);
    assert_eq!(bodies, 30);
    assert_eq!(depth, 1);
    let (end, bodies, _) = run_for(&program, 3 + 194 + 29);
    assert_eq!(end.unwrap(), RunEnd::Paused(program.0.len() - 1));
    assert_eq!(bodies, 30);
}

#[test]
fn a_nested_loop_without_a_body_takes_the_instructions_of_its_scopes_and_steps() {
    let program = loop_over(ForLoopType::Combinations, &[3, 5, 2], 0);
    let (end, _, depth) = run_for(&program, 3 + 194);
    assert_eq!(end.unwrap(), RunEnd::Finished);
    assert_eq!(depth, 1);
    let (end, _, _) = run_for(&program, 3 + 193);
    assert_eq!(end.unwrap(), RunEnd::Paused(program.0.len() - 1));
}

#[test]
fn a_nested_loop_with_a_target_without_steps_inside_runs_no_body() {
    let program = loop_over(ForLoopType::Combinations, &[2, 0], 3);
    // The inner loop takes 3 instructions in each of the 2 outer passes: 2 * (3 + 2) + 2.
    let (end, bodies, depth) = run_for(&program, 2 + 12);
    assert_eq!(end.unwrap(), RunEnd::Finished);
    assert_eq!(bodies, 0);
    assert_eq!(depth, 1);
    let (end, _, _) = run_for(&program, 2 + 11);
    assert_eq!(end.unwrap(), RunEnd::Paused(program.0.len() - 1));
}

#[test]
fn in_each_pass_of_a_lock_step_loop_every_variable_stands_at_the_number_of_the_pass() {
    let counting = visits(&loop_over(ForLoopType::Group, &[3, 5, 2], 2));
    assert_eq!(counting.seen, vec![vec![0, 0, 0], vec![0, 0, 0], vec![1, 1, 1], vec![1, 1, 1]]);
    // The first scope, the scope of the loop and the scope of the body.
    assert_eq!(counting.depths, vec![3, 3, 3, 3]);
}

#[test]
fn a_nested_loop_takes_the_combinations_in_order_with_the_last_variable_fastest() {
    let counting = visits(&loop_over(ForLoopType::Combinations, &[3, 5, 2], 1));
    let mut expected = vec![];
    for i in 0..3 {
        for j in 0..5 {
            for k in 0..2 {
                expected.push(vec![i, j, k]);
            }
        }
    }
    assert_eq!(counting.seen, expected);
    // The first scope, one scope for each loop and the scope of the body.
    assert!(counting.depths.iter().all(|depth| *depth == 5));
}
