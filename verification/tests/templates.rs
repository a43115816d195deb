use std::collections::HashMap;
use testbed::bed::expr::{ObjectExpr, StringExpr, StringInstance};
use testbed::bed::templates::{
    render_context, yield_value, BuildObjectExpr, BuildStringExpr, TemplateCommand, YieldExpr,
};
use testbed::program::ids::VarNameId;
use testbed::program::names::VarNames;
use testbed::program::object::{Counter, Object, VariableRef};
use testbed::program::path::{VarFieldId, VariableAccessError};
use testbed::program::state::ProgramState;

fn obj(s: &str) -> Object {
    Object::new(s.to_string())
}

fn text(s: &str) -> StringExpr {
    StringExpr(vec![StringInstance::String(s.to_string())])
}

fn build(template: &str, output: StringExpr) -> BuildObjectExpr {
    let mut built = BuildObjectExpr::new(BuildStringExpr { template: text(template), output });
    built.properties.insert(7, ObjectExpr::Clone(VarFieldId::new(VarNameId(0))));
    built
}

fn sample() -> ProgramState {
    let mut state = ProgramState::new();
    state.new_scope();
    state.insert_var(VarNameId(0), obj("zero"), None);
    state
}

#[test]
fn yielding_appends_to_the_list_of_the_outermost_scope() {
    let mut state = sample();
    state.new_scope();
    yield_value(VarNameId(5), obj("first"), &mut state);
    yield_value(VarNameId(5), obj("second"), &mut state);
    let (scope, list) = state.get_value(VarNameId(5)).unwrap();
    assert_eq!(scope, 0);
    assert!(matches!(list, Object::List(l) if l.len() == 2));
    yield_value(VarNameId(0), obj("third"), &mut state);
    assert!(matches!(state.get_value(VarNameId(0)).unwrap().1, Object::List(l) if l.len() == 1));
    let mut empty = ProgramState::new();
    yield_value(VarNameId(1), obj("x"), &mut empty);
    assert_eq!(empty.depth(), 1);
}

#[test]
fn a_build_asks_for_its_template_and_its_output() {
    let state = sample();
    let output = StringExpr(vec![
        StringInstance::String("out-".to_string()),
        StringInstance::Variable(VarFieldId::new(VarNameId(0))),
    ]);
    let command = TemplateCommand::BuildAssign { output: VarNameId(3), object: build("page.j2", output) };
    let request = command.request(&state).unwrap().unwrap();
    assert_eq!(request.template, "page.j2");
    assert_eq!(request.output, "out-zero");
    let plain = TemplateCommand::Yield {
        output: VarNameId(3),
        object: YieldExpr::Object(ObjectExpr::Clone(VarFieldId::new(VarNameId(0)))),
    };
    assert!(plain.request(&state).unwrap().is_none());
    let broken = TemplateCommand::Yield {
        output: VarNameId(3),
        object: YieldExpr::Build(build(
            "t",
            StringExpr(vec![StringInstance::Variable(VarFieldId::new(VarNameId(9)))]),
        )),
    };
    assert!(matches!(broken.request(&state), Err(VariableAccessError::MissingVariable(VarNameId(9)))));
}

#[test]
fn a_built_object_has_the_rendered_path_for_its_base() {
    let mut state = sample();
    let command = TemplateCommand::BuildAssign { output: VarNameId(3), object: build("t", text("o")) };
    command.run(&mut state, Some("out/o".to_string())).unwrap();
    match state.get_value(VarNameId(3)).unwrap().1 {
        Object::Struct(s) => {
            assert_eq!(s.base, "out/o");
            assert!(matches!(&s.properties[&7], Object::Struct(p) if p.base == "zero"));
        }
        other => panic!("not a struct: {:?}", other),
    }
    let yielding = TemplateCommand::Yield { output: VarNameId(4), object: YieldExpr::Build(build("t", text("o"))) };
    yielding.run(&mut state, Some("p".to_string())).unwrap();
    assert!(matches!(state.get_value(VarNameId(4)).unwrap().1, Object::List(l) if l.len() == 1));
}

#[test]
fn a_failed_build_changes_nothing() {
    let mut state = sample();
    let command = TemplateCommand::BuildAssign { output: VarNameId(3), object: build("t", text("o")) };
    command.run(&mut state, None).unwrap();
    assert!(state.get_value(VarNameId(3)).is_none());
    let mut object = build("t", text("o"));
    object.properties.insert(8, ObjectExpr::Clone(VarFieldId::new(VarNameId(9))));
    let failing = TemplateCommand::BuildAssign { output: VarNameId(3), object };
    let err = failing.run(&mut state, Some("p".to_string()));
    assert!(matches!(err, Err(VariableAccessError::MissingVariable(VarNameId(9)))));
    assert!(state.get_value(VarNameId(3)).is_none());
}

#[test]
fn a_template_sees_the_innermost_text_of_each_named_variable() {
    let mut names = VarNames::default();
    for name in ["host", "count", "items", "alias", "lost"] {
        names.replace(name);
    }
    let mut state = ProgramState::new();
    state.new_scope();
    state.insert_var(VarNameId(0), obj("outer"), None);
    state.insert_var(VarNameId(1), Object::Counter(Counter { offset: 1, start: 4, end: 9 }), None);
    state.insert_var(VarNameId(2), Object::List(vec![obj("a"), obj("b")]), None);
    state.insert_var(VarNameId(9), obj("nameless"), None);
    state.new_scope();
    state.insert_var(VarNameId(0), obj("inner"), None);
    state.insert_var(
        VarNameId(3),
        Object::Ref(VariableRef { scope: 0, target: VarNameId(2), offset: 1 }),
        None,
    );
    state.insert_var(
        VarNameId(4),
        Object::Ref(VariableRef { scope: 0, target: VarNameId(2), offset: 2 }),
        None,
    );
    let context: HashMap<String, String> = render_context(&state, &names).into_iter().collect();
    let mut expected = HashMap::new();
    expected.insert("host".to_string(), "inner".to_string());
    expected.insert("count".to_string(), "5".to_string());
    expected.insert("alias".to_string(), "b".to_string());
    assert_eq!(context, expected);
    assert_eq!(render_context(&state, &names).len(), 3);
}
