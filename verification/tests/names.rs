use testbed::program::ids::VarNameId;
use testbed::program::load::ObjectDeserialize;
use testbed::program::names::VarNames;
use testbed::program::object::Object;

#[test]
fn names_are_numbered_in_the_order_they_are_first_seen() {
    let mut names = VarNames::default();
    assert_eq!(names.replace("hosts"), VarNameId(0));
    assert_eq!(names.replace("port"), VarNameId(1));
    assert_eq!(names.replace("hosts"), VarNameId(0));
    assert_eq!(names.evaluate(VarNameId(1)), Some("port"));
    assert_eq!(names.evaluate(VarNameId(2)), None);
    let copy = names.clone();
    assert_eq!(copy.evaluate(VarNameId(0)), Some("hosts"));
}

#[test]
fn loading_interns_the_names_of_properties() {
    let mut names = VarNames::default();
    names.replace("known");
    let literal = ObjectDeserialize::List(vec![
        ObjectDeserialize::Struct {
            base: "first".to_string(),
            properties: vec![
                ("new".to_string(), ObjectDeserialize::Struct { base: "1".to_string(), properties: vec![] }),
                ("known".to_string(), ObjectDeserialize::List(vec![])),
            ],
        },
        ObjectDeserialize::Struct { base: "second".to_string(), properties: vec![] },
    ]);
    let object = literal.to_object(&mut names);
    assert_eq!(names.evaluate(VarNameId(1)), Some("new"));
    match object {
        Object::List(items) => {
            assert_eq!(items.len(), 2);
            match &items[0] {
                Object::Struct(s) => {
                    assert_eq!(s.base, "first");
                    assert!(matches!(&s.properties[&1], Object::Struct(p) if p.base == "1"));
                    assert!(matches!(&s.properties[&0], Object::List(l) if l.is_empty()));
                }
                other => panic!("not a struct: {:?}", other),
            }
        }
        other => panic!("not a list: {:?}", other),
    }
}
