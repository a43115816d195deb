//! Objects as they are read from a file, before their names are interned.

use super::names::{interned, interned_id, VarNames};
use super::object::{
    lemma_list_push, lemma_list_view, lemma_properties_insert, lemma_struct_view, list_view,
    properties_view, Object, Record, Struct, Value,
};
use std::collections::HashMap;
use vstd::prelude::*;

verus! {

/// An object literal: a struct whose properties stand under their names, in
/// the order in which they were read, or a list.
pub enum ObjectDeserialize {
    Struct { base: String, properties: Vec<(String, ObjectDeserialize)> },
    List(Vec<ObjectDeserialize>),
}

/// The values of the first `n` properties under the numbers of their names,
/// and the names after all of them have been interned. Each name is
/// interned before the value under it is converted, and a name that is read
/// twice keeps the later value.
pub open spec fn loaded_properties(
    names: Seq<Seq<char>>,
    properties: Vec<(String, ObjectDeserialize)>,
    n: nat,
) -> (Map<usize, Value>, Seq<Seq<char>>)
    decreases properties, n,
{
    if n == 0 || n > properties@.len() {
        (Map::empty(), names)
    } else {
        let (head, mid) = loaded_properties(names, properties, (n - 1) as nat);
        let key = properties@[n - 1].0@;
        let (v, after) = loaded(interned(mid, key), properties@[n - 1].1);
        (head.insert(interned_id(mid, key) as usize, v), after)
    }
}

/// The values of the first `n` items, and the names after all of them have
/// been converted.
pub open spec fn loaded_items(names: Seq<Seq<char>>, items: Vec<ObjectDeserialize>, n: nat) -> (
    Seq<Value>,
    Seq<Seq<char>>,
)
    decreases items, n,
{
    if n == 0 || n > items@.len() {
        (Seq::empty(), names)
    } else {
        let (head, mid) = loaded_items(names, items, (n - 1) as nat);
        let (v, after) = loaded(mid, items@[n - 1]);
        (head.push(v), after)
    }
}

/// The value of a literal and the names after every name in it has been
/// interned, in the order in which they stand in it.
pub open spec fn loaded(names: Seq<Seq<char>>, d: ObjectDeserialize) -> (Value, Seq<Seq<char>>)
    decreases d, 0nat,
{
    match d {
        ObjectDeserialize::Struct { base, properties } => {
            let (m, after) = loaded_properties(names, properties, properties@.len());
            (Value::Struct(Record { base: base@, properties: m }), after)
        },
        ObjectDeserialize::List(items) => {
            let (s, after) = loaded_items(names, items, items@.len());
            (Value::List(s), after)
        },
    }
}

impl ObjectDeserialize {
    /// The object that this literal describes, with every name in it
    /// interned in `names`.
    #[verifier::loop_isolation(false)]
    pub fn to_object(self, names: &mut VarNames) -> (r: Object)
        ensures
            (r@, final(names)@) == loaded(old(names)@, self),
        decreases self,
    {
        match self {
            ObjectDeserialize::Struct { base, properties } => {
                let mut made: HashMap<usize, Object> = HashMap::new();
                let ghost all = properties;
                for entry in it: properties.into_iter()
                    invariant
                        it.seq() == all@,
                        (properties_view(made@), names@) == loaded_properties(
                            old(names)@,
                            all,
                            it.index() as nat,
                        ),
                {
                    let ghost before = made@;
                    assert(entry == all@[it.index() as int]);
                    let (key, value) = entry;
                    let name_id = names.replace(key.as_str());
                    let value = value.to_object(names);
                    made.insert(name_id.0, value);
                    proof {
                        lemma_properties_insert(before, name_id.0, value);
                    }
                }
                let s = Struct::new(base, made);
                proof {
                    lemma_struct_view(s);
                }
                Object::Struct(s)
            },
            ObjectDeserialize::List(objects) => {
                let mut made: Vec<Object> = Vec::new();
                let ghost all = objects;
                for item in it: objects.into_iter()
                    invariant
                        it.seq() == all@,
                        (list_view(made@), names@) == loaded_items(
                            old(names)@,
                            all,
                            it.index() as nat,
                        ),
                {
                    let ghost before = made@;
                    assert(item == all@[it.index() as int]);
                    let value = item.to_object(names);
                    made.push(value);
                    proof {
                        lemma_list_push(before, value);
                    }
                }
                proof {
                    lemma_list_view(made);
                }
                Object::List(made)
            },
        }
    }
}

} // verus!
