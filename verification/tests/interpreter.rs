use std::collections::HashMap;
use testbed::bed::commands::{ArgBuilder, Command, OutputMap, Spawn};
use testbed::bed::expr::{IterTargetExpr, ObjectExpr, RangeExpr, StringExpr, StringInstance, StructExpr};
use testbed::bed::process::ProcessInfo;
use testbed::parser::commands::{build_commands_program, CommandExpr};
use testbed::parser::{ForLoop, ForLoopType};
use testbed::program::ids::{Shutdown, VarNameId};
use testbed::program::instruction::{Instruction, Program};
use testbed::program::load::ObjectDeserialize;
use testbed::program::names::VarNames;
use testbed::program::object::Object;
use testbed::program::path::{VarFieldId, VariableAccessError};
use testbed::program::run::{Executable, RunEnd};
use testbed::program::state::ProgramState;

struct Recorder {
    names: VarNames,
    spawned: Vec<ProcessInfo>,
    bodies: usize,
    finished: bool,
    shut_down: bool,
}

impl Recorder {
    fn new() -> Self {
        Recorder { names: VarNames::default(), spawned: vec![], bodies: 0, finished: false, shut_down: false }
    }
}

impl Executable<Command> for Recorder {
    fn shutdown(&mut self) {
        self.shut_down = true;
    }

    fn finish(&mut self, _state: &mut ProgramState, _shutdown: &Shutdown) {
        self.finished = true;
    }

    fn var_names_mut(&mut self) -> &mut VarNames {
        &mut self.names
    }

    fn execute(
        &mut self,
        command: &Command,
        state: &mut ProgramState,
        _shutdown: &Shutdown,
    ) -> Result<(), VariableAccessError> {
        self.bodies += 1;
        if let Command::Spawn(spawn) = command {
            self.spawned.push(spawn.evaluate(state)?);
        }
        Ok(())
    }

    fn print(&self, _program: &ProgramState, _object: &Object) {}

    fn load(&mut self, _path: &str) -> Option<ObjectDeserialize> {
        None
    }
}

fn text(s: &str) -> StringExpr {
    StringExpr(vec![StringInstance::String(s.to_string())])
}

fn literal(s: &str) -> ObjectExpr {
    ObjectExpr::Struct(StructExpr { base: text(s), properties: HashMap::new() })
}

fn list_of(n: usize) -> ObjectExpr {
    ObjectExpr::List((0..n).map(|i| literal(&format!("v{i}"))).collect())
}

fn create(target: usize, value: ObjectExpr) -> CommandExpr {
    CommandExpr::Command(Instruction::CreateVar { target: VarNameId(target), scope: None, value })
}

fn spawn_echo(var: usize) -> CommandExpr {
    CommandExpr::Command(Instruction::Command(Command::Spawn(Spawn {
        working_dir: None,
        command: text("echo"),
        args: vec![ArgBuilder::String(StringExpr(vec![StringInstance::Variable(VarFieldId::new(
            VarNameId(var),
        ))]))],
        stdout: OutputMap::Print,
        stderr: OutputMap::Print,
    })))
}

fn run_all(program: &Program<Command>, recorder: &mut Recorder) -> Result<RunEnd, (usize, VariableAccessError)> {
    let mut state = ProgramState::new();
    state.new_scope();
    let shutdown = Shutdown::new();
    program.run(recorder, &mut state, &shutdown, u64::MAX)
}

#[test]
fn group_loop_spawns_once_for_each_host_in_order() {
    let hosts = ObjectExpr::List(vec![literal("a"), literal("b")]);
    let program = build_commands_program(vec![
        create(0, hosts),
        CommandExpr::ForLoop {
            for_loop: ForLoop {
                ty: ForLoopType::Group,
                iters: vec![VarNameId(1)],
                targets: vec![IterTargetExpr::Variable(VarNameId(0))],
            },
            exprs: vec![spawn_echo(1)],
        },
    ]);
    let mut recorder = Recorder::new();
    let end = run_all(&program, &mut recorder).unwrap();
    assert_eq!(end, RunEnd::Finished);
    assert!(recorder.finished);
    assert_eq!(recorder.spawned.len(), 2);
    assert_eq!(recorder.spawned[0].command, "echo");
    assert_eq!(recorder.spawned[0].args, vec!["a".to_string()]);
    assert_eq!(recorder.spawned[1].args, vec!["b".to_string()]);
}

fn three_loops(ty: ForLoopType) -> Program<Command> {
    build_commands_program(vec![
        create(0, list_of(3)),
        create(1, list_of(5)),
        create(2, list_of(2)),
        CommandExpr::ForLoop {
            for_loop: ForLoop {
                ty,
                iters: vec![VarNameId(10), VarNameId(11), VarNameId(12)],
                targets: vec![
                    IterTargetExpr::Variable(VarNameId(0)),
                    IterTargetExpr::Variable(VarNameId(1)),
                    IterTargetExpr::Variable(VarNameId(2)),
                ],
            },
            exprs: vec![CommandExpr::Command(Instruction::Command(Command::Sleep(0)))],
        },
    ])
}

#[test]
fn group_loop_runs_as_often_as_its_shortest_target_is_long() {
    let program = three_loops(ForLoopType::Group);
    let mut recorder = Recorder::new();
    assert_eq!(run_all(&program, &mut recorder).unwrap(), RunEnd::Finished);
    assert_eq!(recorder.bodies, 2);
}

#[test]
fn combination_loop_runs_once_for_each_combination() {
    let program = three_loops(ForLoopType::Combinations);
    let mut recorder = Recorder::new();
    assert_eq!(run_all(&program, &mut recorder).unwrap(), RunEnd::Finished);
    assert_eq!(recorder.bodies, 30);
}

#[test]
fn range_loop_counts_from_start_to_end() {
    let program = build_commands_program(vec![CommandExpr::ForLoop {
        for_loop: ForLoop {
            ty: ForLoopType::Group,
            iters: vec![VarNameId(1)],
            targets: vec![IterTargetExpr::Range { start: RangeExpr::Integer(3), end: RangeExpr::Integer(6) }],
        },
        exprs: vec![spawn_echo(1)],
    }]);
    let mut recorder = Recorder::new();
    assert_eq!(run_all(&program, &mut recorder).unwrap(), RunEnd::Finished);
    let args: Vec<String> = recorder.spawned.iter().map(|p| p.args[0].clone()).collect();
    assert_eq!(args, vec!["3".to_string(), "4".to_string(), "5".to_string()]);
}

#[test]
fn cancelled_run_shuts_down_and_does_not_finish() {
    let program = three_loops(ForLoopType::Group);
    let mut recorder = Recorder::new();
    let mut state = ProgramState::new();
    let shutdown = Shutdown::new();
    assert!(!shutdown.shutdown());
    assert!(shutdown.is_shutdown());
    let end = program.run(&mut recorder, &mut state, &shutdown, u64::MAX).unwrap();
    assert_eq!(end, RunEnd::Cancelled);
    assert!(recorder.shut_down);
    assert!(!recorder.finished);
    assert_eq!(recorder.bodies, 0);
}

#[test]
fn run_pauses_when_its_steps_are_used_up() {
    let program: Program<Command> = Program(vec![Instruction::PushScope, Instruction::Goto(
        testbed::program::ids::InstructionId(0),
    )]);
    let mut recorder = Recorder::new();
    let mut state = ProgramState::new();
    let shutdown = Shutdown::new();
    let end = program.run(&mut recorder, &mut state, &shutdown, 5).unwrap();
    assert_eq!(end, RunEnd::Paused(1));
    assert_eq!(state.depth(), 3);
}

#[test]
fn failing_instruction_is_reported_with_its_index() {
    let program = build_commands_program(vec![
        create(0, literal("x")),
        CommandExpr::Command(Instruction::PushList { target: VarNameId(0), object: literal("y") }),
    ]);
    let mut recorder = Recorder::new();
    let err = run_all(&program, &mut recorder).unwrap_err();
    assert_eq!(err.0, 1);
    assert!(matches!(err.1, VariableAccessError::NotAList));
}
