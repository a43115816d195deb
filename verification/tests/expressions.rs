use std::collections::HashMap;
use testbed::bed::commands::{ArgBuilder, ObjectIter, OutputMap, Spawn};
use testbed::bed::expr::{
    IterTargetExpr, ObjectExpr, RangeExpr, StringExpr, StringInstance, StructExpr,
};
use testbed::program::ids::VarNameId;
use testbed::program::instruction::IterTarget;
use testbed::program::object::{Counter, Object, VariableRef};
use testbed::program::path::{VarFieldId, VariableAccessError};
use testbed::program::state::ProgramState;

fn obj(s: &str) -> Object {
    Object::new(s.to_string())
}

fn lit(s: &str) -> StringInstance {
    StringInstance::String(s.to_string())
}

fn var(id: usize) -> StringInstance {
    StringInstance::Variable(VarFieldId::new(VarNameId(id)))
}

fn sample() -> ProgramState {
    let mut state = ProgramState::new();
    state.new_scope();
    state.insert_var(VarNameId(0), obj("alpha"), None);
    state.insert_var(VarNameId(1), Object::Counter(Counter { offset: 2, start: 10, end: 13 }), None);
    state.insert_var(VarNameId(2), Object::List(vec![obj("x"), obj("y")]), None);
    state.insert_var(VarNameId(3), obj("-42"), None);
    state.insert_var(
        VarNameId(4),
        Object::Ref(VariableRef { scope: 0, target: VarNameId(2), offset: 1 }),
        None,
    );
    state
}

fn drain(mut iter: ObjectIter) -> Vec<String> {
    let mut out = vec![];
    while let Some(s) = iter.next() {
        out.push(s);
    }
    out
}

#[test]
fn string_expression_joins_its_pieces() {
    let state = sample();
    let expr = StringExpr(vec![lit("a="), var(0), lit(" n="), var(1), lit(" r="), var(4)]);
    assert_eq!(expr.evaluate(&state).unwrap(), "a=alpha n=12 r=y");
    assert_eq!(StringExpr::default().evaluate(&state).unwrap(), "");
}

#[test]
fn string_expression_fails_with_its_first_failing_piece() {
    let state = sample();
    let expr = StringExpr(vec![lit("a"), var(2), var(9)]);
    assert!(matches!(expr.evaluate(&state), Err(VariableAccessError::NotAStruct(Object::List(_)))));
    let expr = StringExpr(vec![var(9), var(2)]);
    assert!(matches!(expr.evaluate(&state), Err(VariableAccessError::MissingVariable(VarNameId(9)))));
}

#[test]
fn range_bound_is_a_literal_or_a_string_that_spells_a_number() {
    let state = sample();
    assert_eq!(RangeExpr::Integer(-7).evaluate(&state).unwrap(), -7);
    assert_eq!(RangeExpr::Variable(StringExpr(vec![var(3)])).evaluate(&state).unwrap(), -42);
    assert_eq!(RangeExpr::Variable(StringExpr(vec![lit("+1"), lit("5")])).evaluate(&state).unwrap(), 15);
    assert_eq!(
        RangeExpr::Variable(StringExpr(vec![lit("-9223372036854775808")])).evaluate(&state).unwrap(),
        i64::MIN
    );
    for bad in ["", "-", "+", "1 ", " 1", "1_0", "0x10", "9223372036854775808", "alpha"] {
        let r = RangeExpr::Variable(StringExpr(vec![lit(bad)])).evaluate(&state);
        assert!(matches!(r, Err(VariableAccessError::InvalidIdx)), "{:?}", bad);
    }
}

#[test]
fn iteration_target_forgets_the_bounds_of_a_range() {
    assert!(matches!(IterTargetExpr::Variable(VarNameId(3)).to_itertarget(), IterTarget::Variable(VarNameId(3))));
    let range = IterTargetExpr::Range { start: RangeExpr::Integer(0), end: RangeExpr::Integer(2) };
    assert!(matches!(range.to_itertarget(), IterTarget::Range));
}

#[test]
fn object_expression_evaluates_to_each_kind_of_object() {
    let state = sample();
    let cloned = ObjectExpr::Clone(VarFieldId::new(VarNameId(0))).evaluate(&state).unwrap();
    assert!(matches!(cloned, Object::Struct(s) if s.base == "alpha"));
    let counter = ObjectExpr::Counter(RangeExpr::Integer(1), RangeExpr::Integer(4)).evaluate(&state).unwrap();
    assert!(matches!(counter, Object::Counter(Counter { offset: 0, start: 1, end: 4 })));
    let mut properties = HashMap::new();
    properties.insert(5, ObjectExpr::Clone(VarFieldId::new(VarNameId(2))));
    let made = ObjectExpr::List(vec![ObjectExpr::Struct(StructExpr {
        base: StringExpr(vec![lit("b-"), var(0)]),
        properties,
    })])
    .evaluate(&state)
    .unwrap();
    match made {
        Object::List(items) => match &items[0] {
            Object::Struct(s) => {
                assert_eq!(s.base, "b-alpha");
                assert!(matches!(&s.properties[&5], Object::List(l) if l.len() == 2));
            }
            other => panic!("not a struct: {:?}", other),
        },
        other => panic!("not a list: {:?}", other),
    }
}

#[test]
fn object_expression_reports_the_part_that_fails() {
    let state = sample();
    let list = ObjectExpr::List(vec![
        ObjectExpr::Clone(VarFieldId::new(VarNameId(0))),
        ObjectExpr::Counter(RangeExpr::Variable(StringExpr(vec![lit("no")])), RangeExpr::Integer(1)),
        ObjectExpr::Clone(VarFieldId::new(VarNameId(9))),
    ]);
    assert!(matches!(list.evaluate(&state), Err(VariableAccessError::InvalidIdx)));
    let mut properties = HashMap::new();
    properties.insert(5, ObjectExpr::Clone(VarFieldId::new(VarNameId(9))));
    let made = ObjectExpr::Struct(StructExpr { base: StringExpr(vec![var(2)]), properties });
    assert!(matches!(made.evaluate(&state), Err(VariableAccessError::MissingVariable(VarNameId(9)))));
}

#[test]
fn output_map_keeps_its_routing() {
    let doubled = OutputMap::Create(4).map(|v| v * 2);
    assert_eq!(doubled, OutputMap::Create(8));
    let printed: OutputMap<i32> = OutputMap::Print;
    assert_eq!(printed.map(|v| v + 1), OutputMap::Print);
    let text = OutputMap::Append(String::from("f")).map_ref(|s| s.len());
    assert_eq!(text, OutputMap::Append(1));
    let ok: Result<OutputMap<usize>, ()> = OutputMap::Create("abc").map_ref_with_err(|s| Ok(s.len()));
    assert_eq!(ok, Ok(OutputMap::Create(3)));
    let err: Result<OutputMap<usize>, i32> = OutputMap::Append("abc").map_ref_with_err(|_| Err(7));
    assert_eq!(err, Err(7));
    let skipped: Result<OutputMap<usize>, i32> = OutputMap::<&str>::Print.map_ref_with_err(|_| Err(7));
    assert_eq!(skipped, Ok(OutputMap::Print));
}

#[test]
fn arguments_are_splatted_from_what_a_variable_stands_for() {
    let state = sample();
    let of = |id: usize| {
        let builder = ArgBuilder::Splat(VarFieldId::new(VarNameId(id)));
        let args = drain(builder.evaluate(&state).unwrap());
        args
    };
    assert_eq!(of(0), vec!["alpha"]);
    assert_eq!(of(1), vec!["10", "11", "12"]);
    assert_eq!(of(2), vec!["x", "y"]);
    assert_eq!(of(4), vec!["y"]);
    let builder = ArgBuilder::String(StringExpr(vec![lit("-n"), var(1)]));
    let once = builder.evaluate(&state).unwrap();
    assert_eq!(drain(once), vec!["-n12"]);
    assert_eq!(drain(ObjectIter::once("solo".to_string())), vec!["solo"]);
}

#[test]
fn a_list_with_anything_but_structs_cannot_be_splatted() {
    let mut state = sample();
    state.insert_var(VarNameId(6), Object::List(vec![obj("ok"), Object::List(vec![])]), None);
    state.insert_var(
        VarNameId(7),
        Object::Ref(VariableRef { scope: 0, target: VarNameId(99), offset: 0 }),
        None,
    );
    let list = ArgBuilder::Splat(VarFieldId::new(VarNameId(6)));
    let bad = list.evaluate(&state);
    assert!(matches!(bad, Err(VariableAccessError::NotAStruct(Object::List(_)))));
    let reference = ArgBuilder::Splat(VarFieldId::new(VarNameId(7)));
    let dangling = reference.evaluate(&state);
    assert!(matches!(dangling, Err(VariableAccessError::MissingVariable(VarNameId(99)))));
}

#[test]
fn spawn_evaluates_to_a_process() {
    let state = sample();
    let spawn = Spawn {
        working_dir: Some(StringExpr(vec![lit("/tmp/"), var(0)])),
        command: StringExpr(vec![lit("/bin/echo")]),
        args: vec![
            ArgBuilder::String(StringExpr(vec![lit("-e")])),
            ArgBuilder::Splat(VarFieldId::new(VarNameId(2))),
            ArgBuilder::String(StringExpr(vec![var(1)])),
        ],
        stdout: OutputMap::Create(StringExpr(vec![lit("out/"), var(0), lit(".txt")])),
        stderr: OutputMap::Append(StringExpr(vec![lit("err.txt")])),
    };
    let process = spawn.evaluate(&state).unwrap();
    assert_eq!(process.command, "/bin/echo");
    assert_eq!(process.args, vec!["-e", "x", "y", "12"]);
    assert_eq!(process.stdout, OutputMap::Create("out/alpha.txt".to_string()));
    assert_eq!(process.stderr, OutputMap::Append("err.txt".to_string()));
    assert_eq!(process.working_dir, Some("/tmp/alpha".to_string()));
    assert_eq!(process.ident(), "echo -e x y 12");
}

#[test]
fn spawn_fails_with_the_first_part_that_fails() {
    let state = sample();
    let spawn = Spawn {
        working_dir: None,
        command: StringExpr(vec![lit("run")]),
        args: vec![ArgBuilder::Splat(VarFieldId::new(VarNameId(8)))],
        stdout: OutputMap::Create(StringExpr(vec![var(2)])),
        stderr: OutputMap::Print,
    };
    assert!(matches!(spawn.evaluate(&state), Err(VariableAccessError::MissingVariable(VarNameId(8)))));
}
