//! Runtime values: counters, references, structs and lists.

use super::ids::VarNameId;
use std::collections::HashMap;
use vstd::prelude::*;

verus! {

/// A non-owning alias for a variable of some scope, or for one element of it
/// when that variable is a list.
#[derive(Clone, Copy, Debug)]
pub struct VariableRef {
    pub scope: usize,
    pub target: VarNameId,
    pub offset: usize,
}

/// A cursor over the half-open integer range `start..end`.
#[derive(Clone, Copy, Debug)]
pub struct Counter {
    pub offset: usize,
    pub start: i64,
    pub end: i64,
}

impl Counter {
    /// The number the cursor stands at, `start + offset`.
    pub open spec fn value(&self) -> int {
        self.start + self.offset
    }

    /// The number of values in the range, `max(0, end - start)`.
    pub open spec fn span(&self) -> nat {
        if self.end >= self.start {
            (self.end - self.start) as nat
        } else {
            0
        }
    }

    /// What [`Counter::idx`] returns: `start + offset`, held at `i64::MAX`
    /// where the sum would pass it.
    pub open spec fn position(&self) -> i64 {
        if self.value() <= i64::MAX {
            self.value() as i64
        } else {
            i64::MAX
        }
    }

    /// What [`Counter::len`] returns: the span, held at `usize::MAX` where the
    /// range is longer than a `usize` can say.
    pub open spec fn length(&self) -> usize {
        if self.span() <= usize::MAX {
            self.span() as usize
        } else {
            usize::MAX
        }
    }

    /// The number the cursor stands at.
    pub fn idx(&self) -> (r: i64)
        ensures
            r == self.position(),
    {
        let wide: i128 = self.start as i128 + self.offset as i128;
        if wide > i64::MAX as i128 {
            i64::MAX
        } else {
            wide as i64
        }
    }

    /// The number of values in the range.
    pub fn len(&self) -> (r: usize)
        ensures
            r == self.length(),
    {
        if self.end >= self.start {
            let wide: i128 = self.end as i128 - self.start as i128;
            if wide > usize::MAX as i128 {
                usize::MAX
            } else {
                wide as usize
            }
        } else {
            0
        }
    }
}

/// A string with named sub-objects.
#[derive(Debug)]
pub struct Struct {
    pub base: String,
    /// The properties, each under the number of its name.
    pub properties: HashMap<usize, Object>,
}

/// A runtime value.
#[derive(Debug)]
pub enum Object {
    Counter(Counter),
    Ref(VariableRef),
    Struct(Struct),
    List(Vec<Object>),
}

/// What a [`Struct`] holds.
pub struct Record {
    pub base: Seq<char>,
    pub properties: Map<usize, Value>,
}

/// What an [`Object`] holds.
pub enum Value {
    Counter(Counter),
    Ref(VariableRef),
    Struct(Record),
    List(Seq<Value>),
}

/// What `o` holds, all the way down.
pub open spec fn value_of(o: Object) -> Value
    decreases o,
{
    match o {
        Object::Counter(c) => Value::Counter(c),
        Object::Ref(r) => Value::Ref(r),
        Object::Struct(s) => Value::Struct(
            Record {
                base: s.base@,
                properties: Map::new(
                    |k: usize| s.properties@.contains_key(k),
                    |k: usize|
                        if s.properties@.contains_key(k) {
                            value_of(s.properties@[k])
                        } else {
                            arbitrary()
                        },
                ),
            },
        ),
        Object::List(v) => Value::List(
            Seq::new(
                v@.len(),
                |i: int|
                    if 0 <= i < v@.len() {
                        value_of(v@[i])
                    } else {
                        arbitrary()
                    },
            ),
        ),
    }
}

impl View for Object {
    type V = Value;

    open spec fn view(&self) -> Value {
        value_of(*self)
    }
}

impl View for Struct {
    type V = Record;

    open spec fn view(&self) -> Record {
        Record { base: self.base@, properties: properties_view(self.properties@) }
    }
}

/// What a map of properties holds.
pub open spec fn properties_view(m: Map<usize, Object>) -> Map<usize, Value> {
    Map::new(|k: usize| m.contains_key(k), |k: usize| m[k]@)
}

/// What a sequence of objects holds.
pub open spec fn list_view(s: Seq<Object>) -> Seq<Value> {
    Seq::new(s.len(), |i: int| s[i]@)
}

/// A struct object holds its base and the values of its properties.
pub proof fn lemma_struct_view(s: Struct)
    ensures
        Object::Struct(s)@ == Value::Struct(s@),
{
    let a = Object::Struct(s)@->Struct_0;
    assert(a.properties =~= s@.properties);
}

/// A list object holds the values of its elements, in order.
pub proof fn lemma_list_view(v: Vec<Object>)
    ensures
        Object::List(v)@ == Value::List(list_view(v@)),
{
    let a = Object::List(v)@->List_0;
    assert(a =~= list_view(v@));
}

/// Binding a name in a map of properties binds it to what the object holds.
pub proof fn lemma_properties_insert(m: Map<usize, Object>, k: usize, o: Object)
    ensures
        properties_view(m.insert(k, o)) == properties_view(m).insert(k, o@),
{
    assert(properties_view(m.insert(k, o)) =~= properties_view(m).insert(k, o@));
}

/// Appending to a sequence of objects appends what the object holds.
pub proof fn lemma_list_push(s: Seq<Object>, o: Object)
    ensures
        list_view(s.push(o)) == list_view(s).push(o@),
{
    assert(list_view(s.push(o)) =~= list_view(s).push(o@));
}

/// A deep copy of a map of properties.
#[verifier::loop_isolation(false)]
fn clone_properties(m: &HashMap<usize, Object>) -> (r: HashMap<usize, Object>)
    ensures
        properties_view(r@) == properties_view(m@),
    decreases m,
{
    let mut out: HashMap<usize, Object> = HashMap::new();
    for (k, v) in it: m.iter()
        invariant
            forall|j: int|
                0 <= j < it.index() ==> out@.contains_key(*it.seq()[j].0) && out@[*it.seq()[j].0]@
                    == (*it.seq()[j].1)@,
            forall|key: usize|
                out@.contains_key(key) ==> m@.contains_key(key) && out@[key]@ == m@[key]@,
    {
        assert(m@.contains_key(*k) && m@[*k] == *v);
        out.insert(*k, v.clone());
    }
    assert(forall|key: usize| m@.contains_key(key) ==> out@.contains_key(key));
    assert(properties_view(out@) =~= properties_view(m@));
    out
}

impl Clone for Struct {
    fn clone(&self) -> (r: Self)
        ensures
            r@ == self@,
        decreases self,
    {
        Struct { base: self.base.clone(), properties: clone_properties(&self.properties) }
    }
}

impl Clone for Object {
    #[verifier::loop_isolation(false)]
    fn clone(&self) -> (r: Self)
        ensures
            r@ == self@,
        decreases self,
    {
        match self {
            Object::Counter(c) => Object::Counter(*c),
            Object::Ref(r) => Object::Ref(*r),
            Object::Struct(s) => {
                let copy = s.clone();
                proof {
                    lemma_struct_view(*s);
                    lemma_struct_view(copy);
                }
                Object::Struct(copy)
            },
            Object::List(v) => {
                let mut out: Vec<Object> = Vec::new();
                let mut i: usize = 0;
                while i < v.len()
                    invariant
                        i <= v.len(),
                        out@.len() == i,
                        forall|j: int| 0 <= j < i ==> out@[j]@ == v@[j]@,
                    decreases v.len() - i,
                {
                    out.push(v[i].clone());
                    i += 1;
                }
                proof {
                    lemma_list_view(*v);
                    lemma_list_view(out);
                    assert(list_view(out@) =~= list_view(v@));
                }
                Object::List(out)
            },
        }
    }
}

impl Struct {
    /// A struct with the given base and properties.
    pub fn new(base: String, properties: HashMap<usize, Object>) -> (r: Self)
        ensures
            r.base == base,
            r.properties == properties,
    {
        Self { base, properties }
    }
}

impl Object {
    /// A struct object with the given base and no properties.
    pub fn new(base: String) -> (r: Self)
        ensures
            r@ == Value::Struct(Record { base: base@, properties: Map::empty() }),
    {
        let s = Struct { base, properties: HashMap::new() };
        proof {
            lemma_struct_view(s);
            assert(s@.properties =~= Map::empty());
        }
        Object::Struct(s)
    }
}

} // verus!
