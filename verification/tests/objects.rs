use std::collections::HashMap;
use testbed::program::ids::VarNameId;
use testbed::program::object::{Counter, Object, Struct, VariableRef};
use testbed::program::path::{ListIdx, VarFieldId, VariableAccessError, VariableIdx};
use testbed::program::state::ProgramState;

fn plain(s: &str) -> Object {
    Object::new(s.to_string())
}

fn base_of(o: &Object) -> String {
    match o {
        Object::Struct(s) => s.base.clone(),
        other => panic!("not a struct: {:?}", other),
    }
}

fn with_property(base: &str, key: usize, value: Object) -> Object {
    let mut properties = HashMap::new();
    properties.insert(key, value);
    Object::Struct(Struct::new(base.to_string(), properties))
}

fn state_with(vars: Vec<(usize, Object)>) -> ProgramState {
    let mut state = ProgramState::new();
    state.new_scope();
    for (k, v) in vars {
        state.insert_var(VarNameId(k), v, None);
    }
    state
}

#[test]
fn counter_stands_at_start_plus_offset() {
    let c = Counter { offset: 2, start: 5, end: 9 };
    assert_eq!(c.idx(), 7);
    assert_eq!(c.len(), 4);
}

#[test]
fn counter_of_an_empty_or_reversed_range_has_no_length() {
    assert_eq!(Counter { offset: 0, start: 3, end: 3 }.len(), 0);
    assert_eq!(Counter { offset: 0, start: 9, end: -9 }.len(), 0);
}

#[test]
fn counter_over_the_whole_of_i64_has_its_full_length() {
    let c = Counter { offset: 0, start: i64::MIN, end: i64::MAX };
    assert_eq!(c.len() as u128, u64::MAX as u128);
    assert_eq!(Counter { offset: usize::MAX, start: i64::MAX, end: i64::MAX }.idx(), i64::MAX);
}

#[test]
fn new_object_is_a_struct_without_properties() {
    match Object::new("hello".to_string()) {
        Object::Struct(s) => {
            assert_eq!(s.base, "hello");
            assert!(s.properties.is_empty());
        }
        other => panic!("not a struct: {:?}", other),
    }
}

#[test]
fn clone_copies_all_the_way_down() {
    let inner = with_property("inner", 7, plain("leaf"));
    let first = Object::List(vec![with_property("outer", 3, inner), plain("second")]);
    let copy = first.clone();
    assert_eq!(format!("{:?}", copy), format!("{:?}", first));
}

#[test]
fn lookup_finds_the_innermost_binding() {
    let mut state = state_with(vec![(1, plain("outer"))]);
    state.new_scope();
    state.insert_var(VarNameId(1), plain("inner"), None);
    let (scope, object) = state.get_value(VarNameId(1)).unwrap();
    assert_eq!(scope, 1);
    assert_eq!(base_of(object), "inner");
    state.pop_scope();
    let (scope, object) = state.get_value(VarNameId(1)).unwrap();
    assert_eq!(scope, 0);
    assert_eq!(base_of(object), "outer");
    assert!(state.get_value(VarNameId(2)).is_none());
}

#[test]
fn a_scope_that_is_used_again_starts_empty() {
    let mut state = state_with(vec![]);
    state.new_scope();
    state.insert_var(VarNameId(4), plain("stale"), None);
    state.pop_scope();
    state.new_scope();
    assert_eq!(state.depth(), 2);
    assert!(state.get_value(VarNameId(4)).is_none());
    assert!(state.scopes()[1].0.is_empty());
}

#[test]
fn popping_without_a_scope_does_nothing() {
    let mut state = ProgramState::new();
    state.pop_scope();
    assert_eq!(state.depth(), 0);
}

#[test]
fn insert_var_makes_the_scopes_it_needs() {
    let mut state = ProgramState::new();
    state.insert_var(VarNameId(1), plain("a"), Some(2));
    assert_eq!(state.depth(), 3);
    assert_eq!(state.get_value(VarNameId(1)).unwrap().0, 2);
    let mut fresh = ProgramState::new();
    let slot = fresh.insert_var(VarNameId(9), plain("b"), None);
    assert_eq!(base_of(slot), "b");
    assert_eq!(fresh.depth(), 1);
}

#[test]
fn references_are_followed_through_a_chain() {
    let list = Object::List(vec![plain("zero"), plain("one")]);
    let mut state = state_with(vec![(0, list)]);
    let first = VariableRef { scope: 0, target: VarNameId(0), offset: 1 };
    state.insert_var(VarNameId(1), Object::Ref(first), None);
    let second = VariableRef { scope: 0, target: VarNameId(1), offset: 0 };
    state.insert_var(VarNameId(2), Object::Ref(second), None);
    let third = VariableRef { scope: 0, target: VarNameId(2), offset: 5 };
    let direct = base_of(state.evaluate_ref(first).unwrap());
    assert_eq!(direct, "one");
    assert_eq!(base_of(state.evaluate_ref(second).unwrap()), direct);
    assert_eq!(base_of(state.evaluate_ref(third).unwrap()), direct);
}

#[test]
fn a_reference_to_nothing_stands_for_nothing() {
    let state = state_with(vec![(0, Object::List(vec![plain("only")]))]);
    assert!(state.evaluate_ref(VariableRef { scope: 0, target: VarNameId(0), offset: 1 }).is_none());
    assert!(state.evaluate_ref(VariableRef { scope: 0, target: VarNameId(3), offset: 0 }).is_none());
    assert!(state.evaluate_ref(VariableRef { scope: 7, target: VarNameId(0), offset: 0 }).is_none());
}

#[test]
fn list_is_indexed_by_position_and_by_name() {
    let list = vec![plain("a"), Object::Counter(Counter { offset: 0, start: 0, end: 1 }), plain("b"), plain("a")];
    assert_eq!(base_of(ListIdx::Integer(2).get_object(&list).unwrap()), "b");
    assert!(matches!(ListIdx::Integer(4).get_object(&list), Err(VariableAccessError::InvalidIdx)));
    assert_eq!(base_of(ListIdx::String("b").get_object(&list).unwrap()), "b");
    assert!(matches!(ListIdx::String("c").get_object(&list), Err(VariableAccessError::InvalidIdx)));
}

#[test]
fn a_name_selects_the_first_struct_of_that_base() {
    let list = vec![with_property("same", 1, plain("first")), with_property("same", 1, plain("second"))];
    let found = ListIdx::String("same").get_object(&list).unwrap();
    match found {
        Object::Struct(s) => assert_eq!(base_of(&s.properties[&1]), "first"),
        other => panic!("not a struct: {:?}", other),
    }
}

#[test]
fn struct_written_to_a_list_is_found_again_by_its_base() {
    let made = with_property("node7", 2, plain("payload"));
    let mut state = state_with(vec![(0, Object::List(vec![plain("other")])), (1, plain("node7"))]);
    match state.get_value_mut(VarNameId(0)) {
        Some(Object::List(list)) => list.push(made),
        _ => panic!("no list"),
    }
    let path = VarFieldId {
        var: VarNameId(0),
        idx: Some(Box::new(VariableIdx::Variable(VarFieldId::new(VarNameId(1))))),
        field: None,
    };
    match state.get_object(&path).unwrap() {
        Object::Struct(s) => {
            assert_eq!(s.base, "node7");
            assert_eq!(base_of(&s.properties[&2]), "payload");
        }
        other => panic!("not a struct: {:?}", other),
    }
}

#[test]
fn a_base_that_spells_a_number_indexes_by_position() {
    let state = state_with(vec![
        (0, Object::List(vec![plain("1"), plain("x"), plain("y")])),
        (1, plain("2")),
        (2, plain("+1")),
        (3, plain("-1")),
        (4, plain("1 ")),
    ]);
    let at = |var: usize| VarFieldId {
        var: VarNameId(0),
        idx: Some(Box::new(VariableIdx::Variable(VarFieldId::new(VarNameId(var))))),
        field: None,
    };
    assert_eq!(base_of(state.get_object(&at(1)).unwrap()), "y");
    assert_eq!(base_of(state.get_object(&at(2)).unwrap()), "x");
    assert!(matches!(state.get_object(&at(3)), Err(VariableAccessError::InvalidIdx)));
    assert!(matches!(state.get_object(&at(4)), Err(VariableAccessError::InvalidIdx)));
}

#[test]
fn a_counter_indexes_by_the_number_it_stands_at() {
    let state = state_with(vec![
        (0, Object::List(vec![plain("a"), plain("b"), plain("c")])),
        (1, Object::Counter(Counter { offset: 1, start: 1, end: 9 })),
        (2, Object::Counter(Counter { offset: 0, start: -1, end: 9 })),
    ]);
    match state.object_to_idx(state.get_value(VarNameId(1)).unwrap().1) {
        Some(ListIdx::Integer(2)) => {}
        _ => panic!("wrong key"),
    }
    assert!(state.object_to_idx(state.get_value(VarNameId(2)).unwrap().1).is_none());
    assert!(state.object_to_idx(state.get_value(VarNameId(0)).unwrap().1).is_none());
}

#[test]
fn paths_project_through_fields_and_references() {
    let leaf = with_property("leaf", 11, plain("deep"));
    let root = with_property("root", 10, leaf);
    let mut state = state_with(vec![(0, Object::List(vec![plain("skip"), root]))]);
    state.insert_var(
        VarNameId(1),
        Object::Ref(VariableRef { scope: 0, target: VarNameId(0), offset: 1 }),
        None,
    );
    let chain = VarFieldId {
        var: VarNameId(10),
        idx: None,
        field: Some(Box::new(VarFieldId::new(VarNameId(11)))),
    };
    let through_ref = VarFieldId { var: VarNameId(1), idx: None, field: Some(Box::new(chain.clone())) };
    let direct = VarFieldId {
        var: VarNameId(0),
        idx: Some(Box::new(VariableIdx::Integer(1))),
        field: Some(Box::new(chain)),
    };
    assert_eq!(base_of(state.get_object(&through_ref).unwrap()), "deep");
    assert_eq!(base_of(state.get_object(&direct).unwrap()), "deep");
}

#[test]
fn each_mismatch_is_an_error_of_its_own() {
    let state = state_with(vec![
        (0, plain("s")),
        (1, Object::List(vec![plain("a")])),
        (2, Object::Ref(VariableRef { scope: 0, target: VarNameId(99), offset: 0 })),
    ]);
    let missing = VarFieldId::new(VarNameId(5));
    assert!(matches!(state.get_object(&missing), Err(VariableAccessError::MissingVariable(VarNameId(5)))));
    let not_a_list =
        VarFieldId { var: VarNameId(0), idx: Some(Box::new(VariableIdx::Integer(0))), field: None };
    assert!(matches!(state.get_object(&not_a_list), Err(VariableAccessError::NotAList)));
    let out_of_range =
        VarFieldId { var: VarNameId(1), idx: Some(Box::new(VariableIdx::Integer(1))), field: None };
    assert!(matches!(state.get_object(&out_of_range), Err(VariableAccessError::InvalidIdx)));
    let no_field =
        VarFieldId { var: VarNameId(0), idx: None, field: Some(Box::new(VarFieldId::new(VarNameId(8)))) };
    assert!(matches!(state.get_object(&no_field), Err(VariableAccessError::MissingField(VarNameId(8)))));
    let not_a_struct =
        VarFieldId { var: VarNameId(1), idx: None, field: Some(Box::new(VarFieldId::new(VarNameId(8)))) };
    assert!(matches!(state.get_object(&not_a_struct), Err(VariableAccessError::NotAStruct(_))));
    let dangling =
        VarFieldId { var: VarNameId(2), idx: None, field: Some(Box::new(VarFieldId::new(VarNameId(8)))) };
    assert!(matches!(
        state.get_object(&dangling),
        Err(VariableAccessError::MissingVariable(VarNameId(99)))
    ));
}

#[test]
fn text_of_an_object_is_appended() {
    let mut state = state_with(vec![(0, Object::List(vec![plain("x"), plain("y")]))]);
    state.insert_var(
        VarNameId(1),
        Object::Ref(VariableRef { scope: 0, target: VarNameId(0), offset: 1 }),
        None,
    );
    let mut out = String::from(">");
    plain("base").write_to_string(&state, &mut out).unwrap();
    Object::Counter(Counter { offset: 3, start: -5, end: 0 }).write_to_string(&state, &mut out).unwrap();
    state.get_value(VarNameId(1)).unwrap().1.write_to_string(&state, &mut out).unwrap();
    assert_eq!(out, ">base-2y");
    let err = Object::List(vec![]).write_to_string(&state, &mut out);
    assert!(matches!(err, Err(VariableAccessError::NotAStruct(Object::List(_)))));
    assert_eq!(out, ">base-2y");
}

#[test]
fn set_var_assigns_to_variables_and_properties() {
    let mut state = state_with(vec![(0, plain("old"))]);
    state.new_scope();
    state.set_var(VarNameId(0), None, plain("new")).unwrap();
    assert_eq!(base_of(state.get_value(VarNameId(0)).unwrap().1), "new");
    assert_eq!(state.get_value(VarNameId(0)).unwrap().0, 0);
    state.set_var(VarNameId(0), Some(VarNameId(3)), plain("prop")).unwrap();
    match state.get_value(VarNameId(0)).unwrap().1 {
        Object::Struct(s) => assert_eq!(base_of(&s.properties[&3]), "prop"),
        other => panic!("not a struct: {:?}", other),
    }
    state.set_var(VarNameId(1), None, plain("fresh")).unwrap();
    assert_eq!(state.get_value(VarNameId(1)).unwrap().0, 1);
    assert!(matches!(
        state.set_var(VarNameId(2), Some(VarNameId(3)), plain("x")),
        Err(VariableAccessError::MissingVariable(VarNameId(2)))
    ));
    state.insert_var(VarNameId(4), Object::List(vec![]), None);
    assert!(matches!(
        state.set_var(VarNameId(4), Some(VarNameId(3)), plain("x")),
        Err(VariableAccessError::NotAStruct(_))
    ));
}
