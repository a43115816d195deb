use std::collections::HashMap;
use testbed::bed::commands::Command;
use testbed::bed::expr::{IterTargetExpr, ObjectExpr, StringExpr, StringInstance, StructExpr};
use testbed::parser::commands::{build_commands_program, CommandExpr};
use testbed::parser::{ForLoop, ForLoopType};
use testbed::program::ids::{InstructionId, Shutdown, VarNameId};
use testbed::program::instruction::{Instruction, Program};
use testbed::program::load::ObjectDeserialize;
use testbed::program::names::VarNames;
use testbed::program::object::Object;
use testbed::program::path::{VarFieldId, VariableAccessError};
use testbed::program::run::{Executable, RunEnd};
use testbed::program::state::ProgramState;

struct Watcher {
    names: VarNames,
    executed: usize,
    finished: usize,
    shut_down: usize,
    steps: usize,
    cancel_at: Option<usize>,
    depths: Vec<usize>,
}

impl Watcher {
    fn new() -> Self {
        Watcher { names: VarNames::default(), executed: 0, finished: 0, shut_down: 0, steps: 0, cancel_at: None, depths: vec![] }
    }
}

impl Executable<Command> for Watcher {
    fn shutdown(&mut self) {
        self.shut_down += 1;
    }

    fn finish(&mut self, _state: &mut ProgramState, _shutdown: &Shutdown) {
        self.finished += 1;
    }

    fn var_names_mut(&mut self) -> &mut VarNames {
        &mut self.names
    }

    fn execute(
        &mut self,
        _command: &Command,
        state: &mut ProgramState,
        shutdown: &Shutdown,
    ) -> Result<(), VariableAccessError> {
        if self.cancel_at == Some(self.executed) {
            shutdown.shutdown();
        }
        self.executed += 1;
        self.depths.push(state.depth());
        Ok(())
    }

    fn set_iter(&mut self, _iter_var: VarNameId, _idx: usize, _variable: &Object) {
        self.steps += 1;
    }

    fn print(&self, _program: &ProgramState, _object: &Object) {}

    fn load(&mut self, _path: &str) -> Option<ObjectDeserialize> {
        None
    }
}

fn literal(s: &str) -> ObjectExpr {
    ObjectExpr::Struct(StructExpr {
        base: StringExpr(vec![StringInstance::String(s.to_string())]),
        properties: HashMap::new(),
    })
}

fn wait_all() -> Instruction<Command> {
    Instruction::Command(Command::WaitAll(None))
}

#[test]
fn a_turn_that_finds_the_flag_set_runs_nothing() {
    let program: Program<Command> = Program(vec![Instruction::PushScope, wait_all()]);
    let mut watcher = Watcher::new();
    let mut state = ProgramState::new();
    let shutdown = Shutdown::new();
    assert_eq!(program.turn(0, true, &mut watcher, &mut state, &shutdown).unwrap(), None);
    assert_eq!(state.depth(), 0);
    assert_eq!((watcher.shut_down, watcher.executed, watcher.finished), (1, 0, 0));
    assert_eq!(program.turn(0, false, &mut watcher, &mut state, &shutdown).unwrap(), Some(1));
    assert_eq!(state.depth(), 1);
    assert_eq!(program.turn(1, false, &mut watcher, &mut state, &shutdown).unwrap(), Some(2));
    assert_eq!((watcher.shut_down, watcher.executed), (1, 1));
}

#[test]
fn a_flag_set_on_entry_stops_the_run_with_the_scopes_untouched() {
    let program: Program<Command> = Program(vec![Instruction::PushScope, wait_all()]);
    let mut watcher = Watcher::new();
    let mut state = ProgramState::new();
    state.new_scope();
    state.insert_var(VarNameId(0), Object::new("kept".to_string()), None);
    let shutdown = Shutdown::new();
    shutdown.shutdown();
    let end = program.run(&mut watcher, &mut state, &shutdown, u64::MAX).unwrap();
    assert_eq!(end, RunEnd::Cancelled);
    assert_eq!((watcher.shut_down, watcher.executed, watcher.finished, watcher.steps), (1, 0, 0, 0));
    assert_eq!(state.depth(), 1);
    assert!(matches!(state.get_value(VarNameId(0)).unwrap().1, Object::Struct(s) if s.base == "kept"));
}

#[test]
fn a_flag_set_during_a_wait_stops_the_run_without_an_error() {
    let program: Program<Command> = Program(vec![wait_all(), wait_all(), wait_all()]);
    let mut watcher = Watcher::new();
    watcher.cancel_at = Some(1);
    let mut state = ProgramState::new();
    let shutdown = Shutdown::new();
    let end = program.run(&mut watcher, &mut state, &shutdown, u64::MAX).unwrap();
    assert_eq!(end, RunEnd::Cancelled);
    assert_eq!((watcher.executed, watcher.shut_down, watcher.finished), (2, 1, 0));
}

#[test]
fn a_flag_set_during_the_last_command_lets_the_run_finish() {
    let program: Program<Command> = Program(vec![wait_all()]);
    let mut watcher = Watcher::new();
    watcher.cancel_at = Some(0);
    let mut state = ProgramState::new();
    let shutdown = Shutdown::new();
    let end = program.run(&mut watcher, &mut state, &shutdown, u64::MAX).unwrap();
    assert_eq!(end, RunEnd::Finished);
    assert_eq!((watcher.executed, watcher.shut_down, watcher.finished), (1, 0, 1));
}

#[test]
fn a_failure_in_front_of_a_command_ends_the_run_before_it() {
    let program: Program<Command> = Program(vec![
        Instruction::PushList { target: VarNameId(0), object: ObjectExpr::List(vec![]) },
        wait_all(),
    ]);
    let mut watcher = Watcher::new();
    let mut state = ProgramState::new();
    let end = program.run(&mut watcher, &mut state, &Shutdown::new(), u64::MAX);
    assert!(matches!(end, Err((0, VariableAccessError::MissingVariable(VarNameId(0))))));
    assert_eq!((watcher.executed, watcher.finished, watcher.shut_down), (0, 0, 0));
    assert!(state.get_value(VarNameId(0)).is_none());
}

#[test]
fn a_guard_that_is_not_false_skips_the_command_behind_it() {
    let guarded = |base: &str| {
        let program: Program<Command> = Program(vec![
            Instruction::ConditionalJump { cond: VarFieldId::new(VarNameId(0)), jump: InstructionId(2) },
            wait_all(),
        ]);
        let mut watcher = Watcher::new();
        let mut state = ProgramState::new();
        state.insert_var(VarNameId(0), Object::new(base.to_string()), None);
        let end = program.run(&mut watcher, &mut state, &Shutdown::new(), u64::MAX).unwrap();
        assert_eq!(end, RunEnd::Finished);
        assert_eq!(watcher.finished, 1);
        watcher.executed
    };
    assert_eq!(guarded("true"), 0);
    assert_eq!(guarded("false"), 1);
}

#[test]
fn a_compiled_program_leaves_as_many_scopes_as_it_found() {
    let hosts = ObjectExpr::List(vec![literal("a"), literal("b"), literal("c")]);
    let none = ObjectExpr::List(vec![]);
    let looped = |ty: ForLoopType, target: usize, body: Vec<CommandExpr>| CommandExpr::ForLoop {
        for_loop: ForLoop { ty, iters: vec![VarNameId(10 + target)], targets: vec![IterTargetExpr::Variable(VarNameId(target))] },
        exprs: body,
    };
    let program = build_commands_program(vec![
        CommandExpr::Command(Instruction::CreateVar { target: VarNameId(0), scope: None, value: hosts }),
        CommandExpr::Command(Instruction::CreateVar { target: VarNameId(1), scope: None, value: none }),
        CommandExpr::Command(Instruction::CreateVar { target: VarNameId(2), scope: None, value: literal("false") }),
        looped(
            ForLoopType::Combinations,
            0,
            vec![
                CommandExpr::If {
                    conditions: vec![VarFieldId::new(VarNameId(2))],
                    exprs: vec![looped(ForLoopType::Group, 0, vec![CommandExpr::Command(wait_all())])],
                },
                looped(ForLoopType::Group, 1, vec![CommandExpr::Command(wait_all())]),
            ],
        ),
        CommandExpr::If { conditions: vec![VarFieldId::new(VarNameId(0))], exprs: vec![CommandExpr::Command(wait_all())] },
    ]);
    let mut watcher = Watcher::new();
    let mut state = ProgramState::new();
    state.new_scope();
    let end = program.run(&mut watcher, &mut state, &Shutdown::new(), u64::MAX);
    assert!(matches!(end, Err((_, VariableAccessError::NotAStruct(_)))));
    let program = build_commands_program(vec![
        CommandExpr::Command(Instruction::CreateVar {
            target: VarNameId(0),
            scope: None,
            value: ObjectExpr::List(vec![literal("a"), literal("b"), literal("c")]),
        }),
        CommandExpr::Command(Instruction::CreateVar { target: VarNameId(1), scope: None, value: ObjectExpr::List(vec![]) }),
        CommandExpr::Command(Instruction::CreateVar { target: VarNameId(2), scope: None, value: literal("false") }),
        looped(
            ForLoopType::Combinations,
            0,
            vec![
                CommandExpr::If {
                    conditions: vec![VarFieldId::new(VarNameId(2))],
                    exprs: vec![looped(ForLoopType::Group, 0, vec![CommandExpr::Command(wait_all())])],
                },
                looped(ForLoopType::Group, 1, vec![CommandExpr::Command(wait_all())]),
            ],
        ),
    ]);
    let mut watcher = Watcher::new();
    let mut state = ProgramState::new();
    state.new_scope();
    let end = program.run(&mut watcher, &mut state, &Shutdown::new(), u64::MAX).unwrap();
    assert_eq!(end, RunEnd::Finished);
    assert_eq!(watcher.executed, 9);
    assert!(watcher.depths.iter().all(|d| *d == 6));
    assert_eq!(state.depth(), 1);
    assert!(state.get_value(VarNameId(10)).is_none());
}
