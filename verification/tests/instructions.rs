use std::collections::HashMap;
use testbed::bed::expr::{IterTargetExpr, ObjectExpr, RangeExpr, StringExpr, StringInstance, StructExpr};
use testbed::program::ids::{InstructionId, Shutdown, VarNameId};
use testbed::program::instruction::{Instruction, IterTarget, Program};
use testbed::program::load::ObjectDeserialize;
use testbed::program::names::VarNames;
use testbed::program::object::{Counter, Object, VariableRef};
use testbed::program::path::{VarFieldId, VariableAccessError};
use testbed::program::run::{Executable, RunEnd};
use testbed::program::state::ProgramState;

struct Probe {
    names: VarNames,
    marks: Vec<String>,
    steps: Vec<(usize, usize)>,
    printed: Vec<String>,
    files: HashMap<String, String>,
}

impl Probe {
    fn new() -> Self {
        Probe { names: VarNames::default(), marks: vec![], steps: vec![], printed: vec![], files: HashMap::new() }
    }
}

impl Executable<VarFieldId> for Probe {
    fn shutdown(&mut self) {}

    fn finish(&mut self, _state: &mut ProgramState, _shutdown: &Shutdown) {}

    fn var_names_mut(&mut self) -> &mut VarNames {
        &mut self.names
    }

    fn execute(
        &mut self,
        command: &VarFieldId,
        state: &mut ProgramState,
        _shutdown: &Shutdown,
    ) -> Result<(), VariableAccessError> {
        let mut text = String::new();
        state.get_object(command)?.write_to_string(state, &mut text)?;
        self.marks.push(text);
        Ok(())
    }

    fn set_iter(&mut self, iter_var: VarNameId, idx: usize, _variable: &Object) {
        self.steps.push((iter_var.0, idx));
    }

    fn print(&self, _program: &ProgramState, _object: &Object) {}

    fn load(&mut self, path: &str) -> Option<ObjectDeserialize> {
        self.files.get(path).map(|base| ObjectDeserialize::Struct {
            base: base.clone(),
            properties: vec![("size".to_string(), ObjectDeserialize::List(vec![]))],
        })
    }
}

fn text(s: &str) -> StringExpr {
    StringExpr(vec![StringInstance::String(s.to_string())])
}

fn literal(s: &str) -> ObjectExpr {
    ObjectExpr::Struct(StructExpr { base: text(s), properties: HashMap::new() })
}

fn create(target: usize, value: ObjectExpr) -> Instruction<VarFieldId> {
    Instruction::CreateVar { target: VarNameId(target), scope: None, value }
}

fn mark(var: usize) -> Instruction<VarFieldId> {
    Instruction::Command(VarFieldId::new(VarNameId(var)))
}

fn run(code: Vec<Instruction<VarFieldId>>, probe: &mut Probe) -> (Result<RunEnd, (usize, VariableAccessError)>, ProgramState) {
    let mut state = ProgramState::new();
    state.new_scope();
    let end = Program(code).run(probe, &mut state, &Shutdown::new(), 10_000);
    (end, state)
}

#[test]
fn a_guarded_block_runs_only_when_every_guard_is_false() {
    let guarded = |a: &str, b: &str| {
        vec![
            create(0, literal(a)),
            create(1, literal(b)),
            create(2, literal("ran")),
            Instruction::ConditionalJump { cond: VarFieldId::new(VarNameId(0)), jump: InstructionId(6) },
            Instruction::ConditionalJump { cond: VarFieldId::new(VarNameId(1)), jump: InstructionId(6) },
            mark(2),
        ]
    };
    for (a, b, runs) in [("false", "false", true), ("false", "true", false), ("true", "false", false), ("False", "false", false), ("", "false", false)] {
        let mut probe = Probe::new();
        let (end, _) = run(guarded(a, b), &mut probe);
        assert_eq!(end.unwrap(), RunEnd::Finished);
        assert_eq!(probe.marks.len(), if runs { 1 } else { 0 }, "{:?} {:?}", a, b);
    }
}

#[test]
fn a_guard_needs_a_struct() {
    let mut probe = Probe::new();
    let code = vec![
        create(0, ObjectExpr::List(vec![])),
        Instruction::ConditionalJump { cond: VarFieldId::new(VarNameId(0)), jump: InstructionId(0) },
    ];
    let (end, _) = run(code, &mut probe);
    assert!(matches!(end, Err((1, VariableAccessError::NotAStruct(_)))));
}

#[test]
fn assignment_reaches_outer_scopes_and_creation_does_not() {
    let mut probe = Probe::new();
    let code = vec![
        create(0, literal("outer")),
        create(1, literal("kept")),
        Instruction::PushScope,
        create(0, literal("inner")),
        Instruction::AssignVar { target: VarNameId(1), scope: None, value: literal("changed") },
        Instruction::AssignVar { target: VarNameId(9), scope: None, value: literal("nowhere") },
        Instruction::AssignVar { target: VarNameId(0), scope: Some(0), value: literal("direct") },
        Instruction::CreateVar { target: VarNameId(5), scope: Some(0), value: literal("placed") },
        Instruction::CreateVar { target: VarNameId(6), scope: Some(7), value: literal("lost") },
        mark(0),
        Instruction::PopScope,
        mark(0),
        mark(1),
        mark(5),
    ];
    let (end, state) = run(code, &mut probe);
    assert_eq!(end.unwrap(), RunEnd::Finished);
    assert_eq!(probe.marks, vec!["inner", "direct", "changed", "placed"]);
    assert!(state.get_value(VarNameId(9)).is_none());
    assert!(state.get_value(VarNameId(6)).is_none());
    assert_eq!(state.depth(), 1);
}

#[test]
fn pushing_appends_to_a_list() {
    let mut probe = Probe::new();
    let code = vec![
        create(0, ObjectExpr::List(vec![literal("a")])),
        Instruction::PushScope,
        Instruction::PushList { target: VarNameId(0), object: literal("b") },
        Instruction::PopScope,
        Instruction::PushList { target: VarNameId(3), object: literal("c") },
    ];
    let (end, state) = run(code, &mut probe);
    assert!(matches!(end, Err((4, VariableAccessError::MissingVariable(VarNameId(3))))));
    assert!(matches!(state.get_value(VarNameId(0)).unwrap().1, Object::List(l) if l.len() == 2));
}

#[test]
fn a_loop_over_a_list_binds_a_reference_to_each_element() {
    let mut probe = Probe::new();
    let code = vec![
        create(0, ObjectExpr::List(vec![literal("a"), literal("b"), literal("c")])),
        Instruction::PushScope,
        Instruction::StartIter { target: IterTargetExpr::Variable(VarNameId(0)), iter: VarNameId(1), jump: InstructionId(6) },
        mark(1),
        Instruction::Increment { target: IterTarget::Variable(VarNameId(0)), iter: VarNameId(1), jump: InstructionId(6) },
        Instruction::Goto(InstructionId(3)),
        Instruction::PopScope,
    ];
    let (end, state) = run(code, &mut probe);
    assert_eq!(end.unwrap(), RunEnd::Finished);
    assert_eq!(probe.marks, vec!["a", "b", "c"]);
    assert_eq!(probe.steps, vec![(1, 0), (1, 1), (1, 2), (1, 3)]);
    assert!(state.get_value(VarNameId(1)).is_none());
}

#[test]
fn a_loop_over_nothing_is_skipped() {
    let mut probe = Probe::new();
    let code = vec![
        create(0, ObjectExpr::List(vec![])),
        Instruction::StartIter { target: IterTargetExpr::Variable(VarNameId(0)), iter: VarNameId(1), jump: InstructionId(3) },
        mark(0),
        Instruction::StartIter {
            target: IterTargetExpr::Range { start: RangeExpr::Integer(4), end: RangeExpr::Integer(4) },
            iter: VarNameId(2),
            jump: InstructionId(5),
        },
        mark(0),
    ];
    let (end, state) = run(code, &mut probe);
    assert_eq!(end.unwrap(), RunEnd::Finished);
    assert!(probe.marks.is_empty());
    assert!(probe.steps.is_empty());
    assert!(state.get_value(VarNameId(1)).is_none());
    assert!(state.get_value(VarNameId(2)).is_none());
}

#[test]
fn a_step_past_the_last_element_jumps_out_of_the_loop() {
    let mut probe = Probe::new();
    let mut state = ProgramState::new();
    state.new_scope();
    state.insert_var(VarNameId(0), Object::List(vec![Object::new("only".to_string())]), None);
    state.insert_var(
        VarNameId(1),
        Object::Ref(VariableRef { scope: 0, target: VarNameId(0), offset: 0 }),
        None,
    );
    state.insert_var(VarNameId(2), Object::Counter(Counter { offset: 2, start: 0, end: 4 }), None);
    let program: Program<VarFieldId> = Program(vec![
        Instruction::Increment { target: IterTarget::Variable(VarNameId(0)), iter: VarNameId(1), jump: InstructionId(40) },
        Instruction::Increment { target: IterTarget::Range, iter: VarNameId(2), jump: InstructionId(50) },
        Instruction::Increment { target: IterTarget::Range, iter: VarNameId(1), jump: InstructionId(60) },
    ]);
    let shutdown = Shutdown::new();
    assert_eq!(program.step(0, &mut probe, &mut state, &shutdown).unwrap(), 40);
    assert_eq!(program.step(1, &mut probe, &mut state, &shutdown).unwrap(), 2);
    assert_eq!(program.step(1, &mut probe, &mut state, &shutdown).unwrap(), 50);
    assert!(matches!(program.step(2, &mut probe, &mut state, &shutdown), Err(VariableAccessError::NotARef)));
    assert!(matches!(state.get_value(VarNameId(2)).unwrap().1, Object::Counter(Counter { offset: 4, .. })));
}

#[test]
fn loop_steps_fail_with_the_error_that_fits() {
    let mut probe = Probe::new();
    let mut state = ProgramState::new();
    state.new_scope();
    state.insert_var(VarNameId(0), Object::new("plain".to_string()), None);
    state.insert_var(VarNameId(1), Object::List(vec![]), None);
    let program: Program<VarFieldId> = Program(vec![
        Instruction::StartIter { target: IterTargetExpr::Variable(VarNameId(9)), iter: VarNameId(3), jump: InstructionId(0) },
        Instruction::StartIter { target: IterTargetExpr::Variable(VarNameId(0)), iter: VarNameId(3), jump: InstructionId(0) },
        Instruction::Increment { target: IterTarget::Variable(VarNameId(1)), iter: VarNameId(3), jump: InstructionId(0) },
        Instruction::Increment { target: IterTarget::Variable(VarNameId(1)), iter: VarNameId(0), jump: InstructionId(0) },
        Instruction::Increment { target: IterTarget::Range, iter: VarNameId(3), jump: InstructionId(0) },
    ]);
    let shutdown = Shutdown::new();
    assert!(matches!(
        program.step(0, &mut probe, &mut state, &shutdown),
        Err(VariableAccessError::MissingVariable(VarNameId(9)))
    ));
    assert!(matches!(program.step(1, &mut probe, &mut state, &shutdown), Err(VariableAccessError::NotAList)));
    assert!(matches!(
        program.step(2, &mut probe, &mut state, &shutdown),
        Err(VariableAccessError::MissingVariable(VarNameId(3)))
    ));
    assert!(matches!(program.step(3, &mut probe, &mut state, &shutdown), Err(VariableAccessError::NotARef)));
    assert!(matches!(
        program.step(4, &mut probe, &mut state, &shutdown),
        Err(VariableAccessError::MissingVariable(VarNameId(3)))
    ));
}

#[test]
fn loading_binds_what_the_file_holds() {
    let mut probe = Probe::new();
    probe.files.insert("data/x.ron".to_string(), "loaded".to_string());
    let code = vec![
        create(0, literal("x")),
        Instruction::LoadVar {
            target: VarNameId(1),
            path: StringExpr(vec![
                StringInstance::String("data/".to_string()),
                StringInstance::Variable(VarFieldId::new(VarNameId(0))),
                StringInstance::String(".ron".to_string()),
            ]),
        },
        mark(1),
        Instruction::LoadVar { target: VarNameId(2), path: text("missing.ron") },
    ];
    let (end, state) = run(code, &mut probe);
    match end {
        Err((3, VariableAccessError::MissingFile(path))) => assert_eq!(path, "missing.ron"),
        other => panic!("wrong end: {:?}", other),
    }
    assert_eq!(probe.marks, vec!["loaded"]);
    assert_eq!(probe.names.evaluate(VarNameId(0)), Some("size"));
    assert!(matches!(state.get_value(VarNameId(1)).unwrap().1, Object::Struct(s) if s.properties.contains_key(&0)));
}

#[test]
fn a_run_can_be_taken_up_where_it_paused() {
    let mut probe = Probe::new();
    let mut state = ProgramState::new();
    let shutdown = Shutdown::new();
    let program: Program<VarFieldId> = Program(vec![
        create(0, literal("a")),
        mark(0),
        create(0, literal("b")),
        mark(0),
    ]);
    assert_eq!(program.run(&mut probe, &mut state, &shutdown, 2).unwrap(), RunEnd::Paused(2));
    assert_eq!(probe.marks, vec!["a"]);
    assert_eq!(program.run_from(2, 0, &mut probe, &mut state, &shutdown).unwrap(), RunEnd::Paused(2));
    assert_eq!(program.run_from(2, 2, &mut probe, &mut state, &shutdown).unwrap(), RunEnd::Finished);
    assert_eq!(probe.marks, vec!["a", "b"]);
    assert_eq!(program.run_from(9, 0, &mut probe, &mut state, &shutdown).unwrap(), RunEnd::Finished);
}
