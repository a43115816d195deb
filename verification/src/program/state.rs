//! The scope stack and the lookups that read it.

use super::ids::VarNameId;
use super::object::{
    lemma_list_view, lemma_properties_insert, lemma_struct_view, list_view,
    properties_view, Object, Record, Struct, Value, VariableRef,
};
use super::path::{
    assigned, bound_in, deref, find_named, find_scope, follow, grown, held, index_key,
    insert_scope, inserted, is_named, key_of, narrow, outcome, plain_key, plain_text, project,
    resolve, select, slot, struct_of, text_of, Failure, Frames, ListIdx, ListKey, VarFieldId,
    VariableAccessError, VariableIdx,
};
use crate::text::{i64_to_string, parse_u64, push_str, str_eq};
use std::collections::HashMap;
use vstd::prelude::*;

verus! {

/// One frame of the scope stack: the variables bound in it, each under the
/// number of its name.
#[derive(Debug)]
pub struct Scope(pub HashMap<usize, Object>);

impl View for Scope {
    type V = Map<usize, Value>;

    open spec fn view(&self) -> Map<usize, Value> {
        properties_view(self.0@)
    }
}

/// The scope stack of a running program, innermost scope last.
pub struct ProgramState {
    scopes: Vec<Scope>,
    /// Emptied scopes kept for reuse.
    scope_cache: Vec<Scope>,
}

impl View for ProgramState {
    type V = Frames;

    closed spec fn view(&self) -> Frames {
        Seq::new(self.scopes@.len(), |i: int| self.scopes@[i]@)
    }
}

/// `HashMap::get_mut`: a mutable borrow of the value under `k`, if there is
/// one. Whatever is written through the borrow is what the map holds under
/// `k` afterwards; nothing else in the map changes.
#[verifier::external_body]
fn map_get_mut<'a>(m: &'a mut HashMap<usize, Object>, k: usize) -> (r: Option<&'a mut Object>)
    ensures
        match r {
            Some(o) => old(m)@.contains_key(k) && *o == old(m)@[k] && final(m)@ == old(m)@.insert(
                k,
                *final(o),
            ),
            None => !old(m)@.contains_key(k) && final(m)@ == old(m)@,
        },
{
    m.get_mut(&k)
}

/// What the innermost-first search finds is the last scope that binds `var`.
pub proof fn lemma_find_scope(frames: Frames, var: usize)
    ensures
        match find_scope(frames, var) {
            Some(i) => 0 <= i < frames.len() && frames[i].contains_key(var) && forall|j: int|
                i < j < frames.len() ==> !(#[trigger] frames[j]).contains_key(var),
            None => forall|j: int| 0 <= j < frames.len() ==> !(#[trigger] frames[j]).contains_key(var),
        },
    decreases frames.len(),
{
    if frames.len() > 0 && !frames.last().contains_key(var) {
        let rest = frames.drop_last();
        lemma_find_scope(rest, var);
        assert(forall|j: int| 0 <= j < rest.len() ==> rest[j] == frames[j]);
        match find_scope(rest, var) {
            Some(i) => {
                assert forall|j: int| i < j < frames.len() implies !(#[trigger] frames[j]).contains_key(
                    var,
                ) by {
                    if j < rest.len() {
                        assert(rest[j] == frames[j]);
                    }
                }
            },
            None => {
                assert forall|j: int| 0 <= j < frames.len() implies !(#[trigger] frames[j]).contains_key(
                    var,
                ) by {
                    if j < rest.len() {
                        assert(rest[j] == frames[j]);
                    }
                }
            },
        }
    }
}

impl ProgramState {
    /// A state with no scope.
    pub fn new() -> (r: Self)
        ensures
            r@ == Seq::<Map<usize, Value>>::empty(),
    {
        let r = Self { scopes: Vec::new(), scope_cache: Vec::new() };
        assert(r@ =~= Seq::<Map<usize, Value>>::empty());
        r
    }

    /// The scopes, outermost first.
    pub fn scopes(&self) -> (r: &Vec<Scope>)
        ensures
            r@.len() == self@.len(),
            forall|i: int| 0 <= i < r@.len() ==> (#[trigger] r@[i])@ == self@[i],
    {
        &self.scopes
    }

    /// The number of scopes.
    pub fn depth(&self) -> (r: usize)
        ensures
            r == self@.len(),
    {
        self.scopes.len()
    }

    /// Pushes an empty scope. A scope kept from an earlier pop is used again,
    /// and is emptied first whatever it held.
    pub fn new_scope(&mut self)
        ensures
            final(self)@ == old(self)@.push(Map::empty()),
    {
        let mut scope = match self.scope_cache.pop() {
            Some(scope) => scope,
            None => Scope(HashMap::new()),
        };
        scope.0.clear();
        assert(scope@ =~= Map::<usize, Value>::empty());
        self.scopes.push(scope);
        assert(self@ =~= old(self)@.push(Map::empty()));
    }

    /// Pops the innermost scope, if there is one, and forgets what it bound.
    pub fn pop_scope(&mut self)
        ensures
            old(self)@.len() > 0 ==> final(self)@ == old(self)@.drop_last(),
            old(self)@.len() == 0 ==> final(self)@ == old(self)@,
    {
        let mut scope = match self.scopes.pop() {
            Some(scope) => scope,
            None => {
                assert(self@ =~= old(self)@);
                return ;
            },
        };
        scope.0.clear();
        self.scope_cache.push(scope);
        assert(self@ =~= old(self)@.drop_last());
    }

    /// The innermost binding of `variable` and the index of its scope.
    pub fn get_value(&self, variable: VarNameId) -> (r: Option<(usize, &Object)>)
        ensures
            match r {
                Some((i, o)) => find_scope(self@, variable.0) == Some(i as int) && o@
                    == self@[i as int][variable.0],
                None => find_scope(self@, variable.0) is None,
            },
    {
        let mut i: usize = self.scopes.len();
        while i > 0
            invariant
                i <= self.scopes.len(),
                forall|j: int| i <= j < self@.len() ==> !(#[trigger] self@[j]).contains_key(variable.0),
            decreases i,
        {
            i -= 1;
            match self.scopes[i].0.get(&variable.0) {
                Some(value) => {
                    proof {
                        lemma_find_scope(self@, variable.0);
                        assert(self@[i as int].contains_key(variable.0));
                    }
                    return Some((i, value));
                },
                None => {
                    assert(!self@[i as int].contains_key(variable.0));
                },
            }
        }
        proof {
            lemma_find_scope(self@, variable.0);
        }
        None
    }

    /// What `value` points at directly.
    fn target(&self, value: VariableRef) -> (r: Option<&Object>)
        ensures
            held(r) == slot(self@, value),
    {
        if value.scope >= self.scopes.len() {
            return None;
        }
        match self.scopes[value.scope].0.get(&value.target.0) {
            None => None,
            Some(Object::List(list)) => {
                proof {
                    lemma_list_view(*list);
                }
                if value.offset < list.len() {
                    Some(&list[value.offset])
                } else {
                    None
                }
            },
            Some(other) => Some(other),
        }
    }

    /// The object at the end of the chain of references that starts at
    /// `value`, or `None` where the chain breaks off or does not end.
    pub fn evaluate_ref(&self, value: VariableRef) -> (r: Option<&Object>)
        ensures
            held(r) == deref(self@, value),
            r matches Some(o) ==> !(o is Ref),
    {
        let mut current = value;
        let mut hops: usize = usize::MAX;
        loop
            invariant
                deref(self@, value) == follow(self@, current, hops as nat),
            decreases hops,
        {
            match self.target(current) {
                Some(Object::Ref(next)) => {
                    if hops == 0 {
                        return None;
                    }
                    hops -= 1;
                    current = *next;
                },
                other => {
                    return other;
                },
            }
        }
    }
}

impl ProgramState {
    /// A mutable borrow of the variable `var` of scope `scope`, if there is
    /// such a scope and it binds `var`.
    pub fn local_mut(&mut self, scope: usize, var: VarNameId) -> (r: Option<&mut Object>)
        ensures
            match r {
                Some(o) => scope < old(self)@.len() && old(self)@[scope as int].contains_key(var.0)
                    && (*o)@ == old(self)@[scope as int][var.0] && final(self)@ =~~= bound_in(
                    old(self)@,
                    scope as int,
                    var.0,
                    (*final(o))@,
                ),
                None => !(scope < old(self)@.len() && old(self)@[scope as int].contains_key(var.0))
                    && final(self)@ =~~= old(self)@,
            },
    {
        if scope >= self.scopes.len() {
            return None;
        }
        map_get_mut(&mut self.scopes[scope].0, var.0)
    }

    /// A mutable borrow of the innermost binding of `variable`.
    pub fn get_value_mut(&mut self, variable: VarNameId) -> (r: Option<&mut Object>)
        ensures
            match r {
                Some(o) => {
                    &&& find_scope(old(self)@, variable.0) matches Some(s)
                    &&& (*o)@ == old(self)@[s][variable.0]
                    &&& final(self)@ == bound_in(old(self)@, s, variable.0, (*final(o))@)
                },
                None => find_scope(old(self)@, variable.0) is None && final(self)@ == old(self)@,
            },
    {
        let found = match self.get_value(variable) {
            Some((scope, _)) => Some(scope),
            None => None,
        };
        match found {
            Some(scope) => {
                proof {
                    lemma_find_scope(self@, variable.0);
                }
                self.local_mut(scope, variable)
            },
            None => None,
        }
    }

    /// Binds `id` to `var` in scope `scope`, or in the innermost scope where
    /// none is given, making empty scopes as far as that scope does not
    /// exist yet, and hands back the object as it now stands in the scope.
    pub fn insert_var(&mut self, id: VarNameId, var: Object, scope: Option<usize>) -> (r: &mut Object)
        ensures
            (*r)@ == var@,
            final(self)@ =~~= inserted(old(self)@, id.0, (*final(r))@, scope),
    {
        if self.scopes.len() == 0 {
            self.new_scope();
        }
        assert(self.scopes@.len() == self@.len());
        assert(self@ =~= grown(old(self)@, self@.len()));
        let at: usize = match scope {
            Some(scope) => scope,
            None => self.scopes.len() - 1,
        };
        while at >= self.scopes.len()
            invariant
                self@.len() > 0,
                self.scopes@.len() == self@.len(),
                self@ == grown(old(self)@, self@.len()),
                self@.len() >= old(self)@.len(),
                self@.len() > old(self)@.len() ==> self@.len() <= at + 1,
                at == insert_scope(old(self)@, scope),
            decreases at + 1 - self.scopes.len(),
        {
            self.new_scope();
            assert(self.scopes@.len() == self@.len());
            assert(self@ =~= grown(old(self)@, self@.len()));
        }
        assert(self@ =~= grown(old(self)@, (at + 1) as nat));
        let ghost frames = self@;
        let ghost before = self.scopes@[at as int].0@;
        self.scopes[at].0.insert(id.0, var);
        proof {
            lemma_properties_insert(before, id.0, var);
            assert(self@ =~= bound_in(frames, at as int, id.0, var@));
        }
        self.local_mut(at, id).unwrap()
    }
}

impl ProgramState {
    /// Assigns `value` to the innermost binding of `id`, or to its property
    /// `property`, which then has to be a struct. A plain assignment to a
    /// name that nothing binds binds it in the innermost scope.
    pub fn set_var(&mut self, id: VarNameId, property: Option<VarNameId>, value: Object) -> (r:
        Result<(), VariableAccessError>)
        ensures
            match r {
                Ok(()) => assigned(old(self)@, id, property, value@) is Ok && final(self)@ =~~= assigned(
                    old(self)@,
                    id,
                    property,
                    value@,
                )->Ok_0,
                Err(e) => assigned(old(self)@, id, property, value@) == Err::<Frames, Failure>(e@)
                    && final(self)@ =~~= old(self)@,
            },
    {
        match property {
            Some(property_id) => {
                match self.get_value(id) {
                    None => {
                        return Err(VariableAccessError::MissingVariable(id));
                    },
                    Some((_, Object::Struct(_))) => {},
                    Some((_, x)) => {
                        return Err(VariableAccessError::NotAStruct(x.clone()));
                    },
                }
                match self.get_value_mut(id) {
                    Some(Object::Struct(into)) => {
                        let ghost before = *into;
                        into.properties.insert(property_id.0, value);
                        proof {
                            lemma_struct_view(before);
                            lemma_struct_view(*into);
                            lemma_properties_insert(before.properties@, property_id.0, value);
                            assert((*into)@ == (Record {
                                base: before@.base,
                                properties: before@.properties.insert(property_id.0, value@),
                            }));
                        }
                        Ok(())
                    },
                    _ => {
                        assert(false);
                        Ok(())
                    },
                }
            },
            None => match self.get_value_mut(id) {
                Some(variable) => {
                    *variable = value;
                    Ok(())
                },
                None => {
                    self.insert_var(id, value, None);
                    Ok(())
                },
            },
        }
    }
}

/// What a borrowed struct, or the failure to find one, holds.
pub open spec fn struct_outcome(r: Result<&Struct, VariableAccessError>) -> Result<Record, Failure> {
    match r {
        Ok(s) => Ok(s@),
        Err(e) => Err(e@),
    }
}

impl ProgramState {
    /// Binds `id` to `var` in scope `scope`, and says whether there is such
    /// a scope. Where there is none, nothing changes.
    pub fn insert_local(&mut self, scope: usize, id: VarNameId, var: Object) -> (done: bool)
        ensures
            done == (scope < old(self)@.len()),
            done ==> final(self)@ == bound_in(old(self)@, scope as int, id.0, var@),
            !done ==> final(self)@ == old(self)@,
    {
        if scope >= self.scopes.len() {
            return false;
        }
        let ghost before = self.scopes@[scope as int].0@;
        self.scopes[scope].0.insert(id.0, var);
        proof {
            lemma_properties_insert(before, id.0, var);
            assert(self@ =~= bound_in(old(self)@, scope as int, id.0, var@));
        }
        true
    }

    /// The struct that `object` is, or stands for when it is a reference.
    pub fn as_struct<'a>(&'a self, object: &'a Object) -> (r: Result<&'a Struct, VariableAccessError>)
        ensures
            struct_outcome(r) == struct_of(self@, object@),
    {
        match object {
            Object::Struct(value) => {
                proof {
                    lemma_struct_view(*value);
                }
                Ok(value)
            },
            Object::Ref(variable_ref) => match self.evaluate_ref(*variable_ref) {
                Some(Object::Struct(value)) => {
                    proof {
                        lemma_struct_view(*value);
                    }
                    Ok(value)
                },
                Some(x) => Err(VariableAccessError::NotAStruct(x.clone())),
                None => Err(VariableAccessError::MissingVariable(variable_ref.target)),
            },
            x => Err(VariableAccessError::NotAStruct(x.clone())),
        }
    }
}

/// What an optional list key holds.
pub open spec fn key_view(r: Option<ListIdx>) -> Option<ListKey> {
    match r {
        Some(k) => Some(k@),
        None => None,
    }
}

/// What a list key, or the failure to find one, holds.
pub open spec fn key_outcome(r: Result<ListIdx, VariableAccessError>) -> Result<ListKey, Failure> {
    match r {
        Ok(k) => Ok(k@),
        Err(e) => Err(e@),
    }
}

impl ProgramState {
    /// The list key that an object other than a reference spells.
    fn plain_idx<'a>(&'a self, object: &'a Object) -> (r: Option<ListIdx<'a>>)
        ensures
            key_view(r) == plain_key(object@),
    {
        match object {
            Object::Counter(counter) => {
                let idx: i64 = counter.idx();
                if idx < 0 {
                    None
                } else if idx as u64 > usize::MAX as u64 {
                    None
                } else {
                    Some(ListIdx::Integer(idx as usize))
                }
            },
            Object::Struct(value) => {
                proof {
                    lemma_struct_view(*value);
                }
                match parse_u64(value.base.as_str()) {
                    Some(n) => {
                        if n <= usize::MAX as u64 {
                            Some(ListIdx::Integer(n as usize))
                        } else {
                            Some(ListIdx::String(value.base.as_str()))
                        }
                    },
                    None => Some(ListIdx::String(value.base.as_str())),
                }
            },
            Object::Ref(_) => None,
            Object::List(_) => None,
        }
    }

    /// The list key that `object` spells: a counter its position, a struct
    /// the number its base spells or else the base itself, a reference what
    /// the object it stands for spells. A list spells none.
    pub fn object_to_idx<'a>(&'a self, object: &'a Object) -> (r: Option<ListIdx<'a>>)
        ensures
            key_view(r) == key_of(self@, object@),
    {
        match object {
            Object::Ref(variable_ref) => {
                match self.evaluate_ref(*variable_ref) {
                    Some(target) => self.plain_idx(target),
                    None => None,
                }
            },
            other => self.plain_idx(other),
        }
    }

    /// The list key that the index `idx` evaluates to.
    pub fn evaluate_idx<'a>(&'a self, idx: &VariableIdx) -> (r: Result<
        ListIdx<'a>,
        VariableAccessError,
    >)
        ensures
            key_outcome(r) == index_key(self@, *idx),
        decreases idx, 0nat,
    {
        let id = match idx {
            VariableIdx::Integer(idx) => {
                return Ok(ListIdx::Integer(*idx));
            },
            VariableIdx::Variable(id) => id,
        };
        let object = match self.get_object(id) {
            Ok(object) => object,
            Err(e) => {
                return Err(e);
            },
        };
        match self.object_to_idx(object) {
            Some(idx) => Ok(idx),
            None => Err(VariableAccessError::InvalidIdx),
        }
    }

    /// What is left of `object` after the index and the field chain of `id`
    /// have been applied to it.
    fn narrow_to<'a>(&'a self, object: &'a Object, id: &VarFieldId) -> (r: Result<
        &'a Object,
        VariableAccessError,
    >)
        ensures
            outcome(r) == narrow(self@, object@, *id),
        decreases id, 0nat,
    {
        let mut object = object;
        if let Some(idx) = &id.idx {
            let list = match object {
                Object::List(list) => list,
                _ => {
                    return Err(VariableAccessError::NotAList);
                },
            };
            proof {
                lemma_list_view(*list);
            }
            let idx = match self.evaluate_idx(idx) {
                Ok(idx) => idx,
                Err(e) => {
                    return Err(e);
                },
            };
            object = match idx.get_object(list.as_slice()) {
                Ok(object) => object,
                Err(e) => {
                    return Err(e);
                },
            };
        }
        if let Some(field) = &id.field {
            return field.get_value(self, object);
        }
        Ok(object)
    }

    /// The object that the path `id` names: the innermost binding of its
    /// variable, then the indexed element, then the chain of fields.
    pub fn get_object<'a>(&'a self, id: &VarFieldId) -> (r: Result<&'a Object, VariableAccessError>)
        ensures
            outcome(r) == resolve(self@, *id),
        decreases id, 1nat,
    {
        match self.get_value(id.var) {
            None => Err(VariableAccessError::MissingVariable(id.var)),
            Some((_scope_idx, object)) => self.narrow_to(object, id),
        }
    }
}

impl Object {
    /// Appends the text of an object other than a reference to `into`.
    fn write_plain(&self, into: &mut String) -> (r: Result<(), VariableAccessError>)
        ensures
            match r {
                Ok(()) => plain_text(self@) == Ok::<Seq<char>, Failure>(
                    final(into)@.skip(old(into)@.len() as int),
                ) && final(into)@.take(old(into)@.len() as int) == old(into)@ && final(into)@.len()
                    >= old(into)@.len(),
                Err(e) => plain_text(self@) == Err::<Seq<char>, Failure>(e@) && final(into)@
                    == old(into)@,
            },
    {
        match self {
            Object::Struct(value) => {
                proof {
                    lemma_struct_view(*value);
                }
                push_str(into, value.base.as_str());
                assert(into@.skip(old(into)@.len() as int) =~= value.base@);
                assert(into@.take(old(into)@.len() as int) =~= old(into)@);
                Ok(())
            },
            Object::Counter(counter) => {
                let text = i64_to_string(counter.idx());
                push_str(into, text.as_str());
                assert(into@.skip(old(into)@.len() as int) =~= text@);
                assert(into@.take(old(into)@.len() as int) =~= old(into)@);
                Ok(())
            },
            Object::List(_) => Err(VariableAccessError::NotAStruct(self.clone())),
            Object::Ref(variable_ref) => Err(VariableAccessError::MissingVariable(variable_ref.target)),
        }
    }

    /// Appends the text of this object to `into`: a struct's base, a
    /// counter's position, and for a reference the text of the object it
    /// stands for. A list has no text, and `into` is then left as it was.
    pub fn write_to_string(&self, state: &ProgramState, into: &mut String) -> (r: Result<
        (),
        VariableAccessError,
    >)
        ensures
            match r {
                Ok(()) => text_of(state@, self@) == Ok::<Seq<char>, Failure>(
                    final(into)@.skip(old(into)@.len() as int),
                ) && final(into)@.take(old(into)@.len() as int) == old(into)@ && final(into)@.len()
                    >= old(into)@.len(),
                Err(e) => text_of(state@, self@) == Err::<Seq<char>, Failure>(e@) && final(into)@
                    == old(into)@,
            },
    {
        match self {
            Object::Ref(variable_ref) => match state.evaluate_ref(*variable_ref) {
                Some(target) => target.write_plain(into),
                None => Err(VariableAccessError::MissingVariable(variable_ref.target)),
            },
            other => other.write_plain(into),
        }
    }
}

impl VarFieldId {
    /// The property of `object` that this path names. A reference stands for
    /// the struct at the end of its chain.
    pub fn get_value<'a>(&self, program: &'a ProgramState, object: &'a Object) -> (r: Result<
        &'a Object,
        VariableAccessError,
    >)
        ensures
            outcome(r) == project(program@, object@, *self),
        decreases self, 1nat,
    {
        let properties = match object {
            Object::Struct(value) => {
                proof {
                    lemma_struct_view(*value);
                }
                &value.properties
            },
            Object::Ref(value) => match program.evaluate_ref(*value) {
                Some(Object::Struct(value)) => {
                    proof {
                        lemma_struct_view(*value);
                    }
                    &value.properties
                },
                Some(x) => {
                    return Err(VariableAccessError::NotAStruct(x.clone()));
                },
                None => {
                    return Err(VariableAccessError::MissingVariable(value.target));
                },
            },
            x => {
                return Err(VariableAccessError::NotAStruct(x.clone()));
            },
        };
        match properties.get(&self.var.0) {
            None => Err(VariableAccessError::MissingField(self.var)),
            Some(output) => program.narrow_to(output, self),
        }
    }
}

impl<'a> ListIdx<'a> {
    /// The element of `list` that this key selects: the one at the position,
    /// or the first struct whose base is the name.
    pub fn get_object<'b>(&self, list: &'b [Object]) -> (r: Result<&'b Object, VariableAccessError>)
        ensures
            outcome(r) == select(list_view(list@), self@),
            r matches Err(e) ==> e is InvalidIdx,
    {
        match self {
            ListIdx::Integer(idx) => {
                if *idx < list.len() {
                    Ok(&list[*idx])
                } else {
                    Err(VariableAccessError::InvalidIdx)
                }
            },
            ListIdx::String(name) => {
                let mut i: usize = 0;
                while i < list.len()
                    invariant
                        i <= list.len(),
                        self@ == ListKey::Name(name@),
                        find_named(list_view(list@).take(i as int), name@) is None,
                    decreases list.len() - i,
                {
                    let hit = match &list[i] {
                        Object::Struct(value) => str_eq(value.base.as_str(), name),
                        _ => false,
                    };
                    proof {
                        let all = list_view(list@);
                        assert(all.take(i + 1).drop_last() =~= all.take(i as int));
                        assert(all.take(i + 1).last() == list@[i as int]@);
                        if let Object::Struct(value) = list@[i as int] {
                            lemma_struct_view(value);
                        }
                        assert(hit == is_named(list@[i as int]@, name@));
                        if hit {
                            assert(find_named(all.take(i + 1), name@) == Some(i as int));
                            lemma_find_named_prefix(all, name@, i + 1);
                            assert(all[i as int] == list@[i as int]@);
                        } else {
                            assert(find_named(all.take(i + 1), name@) is None);
                        }
                    }
                    if hit {
                        return Ok(&list[i]);
                    }
                    i += 1;
                }
                proof {
                    assert(list_view(list@).take(i as int) =~= list_view(list@));
                }
                Err(VariableAccessError::InvalidIdx)
            },
        }
    }
}

/// A match found in a prefix of a list is the match found in the whole list.
pub proof fn lemma_find_named_prefix(list: Seq<Value>, name: Seq<char>, n: int)
    requires
        0 <= n <= list.len(),
        find_named(list.take(n), name) is Some,
    ensures
        find_named(list, name) == find_named(list.take(n), name),
    decreases list.len() - n,
{
    if n < list.len() {
        assert(list.take(n + 1).drop_last() =~= list.take(n));
        lemma_find_named_prefix(list, name, n + 1);
    } else {
        assert(list.take(n) =~= list);
    }
}

} // verus!
