//! Paths into the scope stack and what they resolve to.
//!
//! Everything here is stated over what the scopes hold: a sequence of maps
//! from name numbers to [`Value`]s, innermost scope last.

use super::ids::VarNameId;
use super::object::{Counter, Object, Record, Value, VariableRef};
use crate::text::{decimal, parsed_u64};
use vstd::prelude::*;

verus! {

/// An index into a list: a literal position, or a path whose value names one.
#[derive(Debug)]
pub enum VariableIdx {
    Integer(usize),
    Variable(VarFieldId),
}

/// A variable, optionally indexed as a list, optionally projected through a
/// chain of field names.
#[derive(Debug)]
pub struct VarFieldId {
    pub var: VarNameId,
    pub idx: Option<Box<VariableIdx>>,
    pub field: Option<Box<VarFieldId>>,
}

impl Clone for VariableIdx {
    fn clone(&self) -> (r: Self)
        ensures
            r == *self,
        decreases self,
    {
        match self {
            VariableIdx::Integer(i) => VariableIdx::Integer(*i),
            VariableIdx::Variable(id) => VariableIdx::Variable(id.clone()),
        }
    }
}

impl Clone for VarFieldId {
    fn clone(&self) -> (r: Self)
        ensures
            r == *self,
        decreases self,
    {
        let idx = match &self.idx {
            Some(idx) => Some(Box::new((**idx).clone())),
            None => None,
        };
        let field = match &self.field {
            Some(field) => Some(Box::new((**field).clone())),
            None => None,
        };
        VarFieldId { var: self.var, idx, field }
    }
}

impl VarFieldId {
    /// The path that names the variable `var` itself.
    pub fn new(var: VarNameId) -> (r: Self)
        ensures
            r.var == var,
            r.idx is None,
            r.field is None,
    {
        Self { var, idx: None, field: None }
    }
}

/// Why a path or an expression could not be evaluated.
#[derive(Debug)]
pub enum VariableAccessError {
    NotAStruct(Object),
    NotARef,
    NotAList,
    InvalidIdx,
    MissingFile(String),
    MissingVariable(VarNameId),
    MissingField(VarNameId),
}

/// What a [`VariableAccessError`] holds.
pub enum Failure {
    NotAStruct(Value),
    NotARef,
    NotAList,
    InvalidIdx,
    MissingFile(Seq<char>),
    MissingVariable(VarNameId),
    MissingField(VarNameId),
}

impl View for VariableAccessError {
    type V = Failure;

    open spec fn view(&self) -> Failure {
        match self {
            VariableAccessError::NotAStruct(o) => Failure::NotAStruct(o@),
            VariableAccessError::NotARef => Failure::NotARef,
            VariableAccessError::NotAList => Failure::NotAList,
            VariableAccessError::InvalidIdx => Failure::InvalidIdx,
            VariableAccessError::MissingFile(p) => Failure::MissingFile(p@),
            VariableAccessError::MissingVariable(v) => Failure::MissingVariable(*v),
            VariableAccessError::MissingField(v) => Failure::MissingField(*v),
        }
    }
}

impl Clone for VariableAccessError {
    fn clone(&self) -> (r: Self)
        ensures
            r@ == self@,
    {
        match self {
            VariableAccessError::NotAStruct(o) => VariableAccessError::NotAStruct(o.clone()),
            VariableAccessError::NotARef => VariableAccessError::NotARef,
            VariableAccessError::NotAList => VariableAccessError::NotAList,
            VariableAccessError::InvalidIdx => VariableAccessError::InvalidIdx,
            VariableAccessError::MissingFile(p) => VariableAccessError::MissingFile(p.clone()),
            VariableAccessError::MissingVariable(v) => VariableAccessError::MissingVariable(*v),
            VariableAccessError::MissingField(v) => VariableAccessError::MissingField(*v),
        }
    }
}

/// A key into a list: a position, or the base of the struct looked for.
#[derive(Clone, Copy)]
pub enum ListIdx<'a> {
    Integer(usize),
    String(&'a str),
}

/// What a [`ListIdx`] holds.
pub enum ListKey {
    Integer(usize),
    Name(Seq<char>),
}

impl<'a> View for ListIdx<'a> {
    type V = ListKey;

    open spec fn view(&self) -> ListKey {
        match self {
            ListIdx::Integer(i) => ListKey::Integer(*i),
            ListIdx::String(s) => ListKey::Name(s@),
        }
    }
}

/// The scopes of a program, outermost first, each a map from name numbers to
/// values.
pub type Frames = Seq<Map<usize, Value>>;

/// The most references that are followed from one to the next before a
/// chain is given up as endless.
pub open spec fn hop_limit() -> nat {
    usize::MAX as nat
}

/// The innermost scope that binds `var`.
pub open spec fn find_scope(frames: Frames, var: usize) -> Option<int>
    decreases frames.len(),
{
    if frames.len() == 0 {
        None
    } else if frames.last().contains_key(var) {
        Some(frames.len() - 1)
    } else {
        find_scope(frames.drop_last(), var)
    }
}

/// What a reference points at directly: the variable it names, or the
/// element at its offset when that variable is a list.
pub open spec fn slot(frames: Frames, r: VariableRef) -> Option<Value> {
    if r.scope < frames.len() && frames[r.scope as int].contains_key(r.target.0) {
        match frames[r.scope as int][r.target.0] {
            Value::List(l) => if r.offset < l.len() {
                Some(l[r.offset as int])
            } else {
                None
            },
            v => Some(v),
        }
    } else {
        None
    }
}

/// The value at the end of the chain of references that starts at `r`,
/// following at most `hops` further references after the first.
pub open spec fn follow(frames: Frames, r: VariableRef, hops: nat) -> Option<Value>
    decreases hops,
{
    match slot(frames, r) {
        Some(Value::Ref(next)) => if hops == 0 {
            None
        } else {
            follow(frames, next, (hops - 1) as nat)
        },
        other => other,
    }
}

/// The value that `r` stands for: the end of its chain of references.
pub open spec fn deref(frames: Frames, r: VariableRef) -> Option<Value> {
    follow(frames, r, hop_limit())
}

/// The list key that a value other than a reference spells.
pub open spec fn plain_key(v: Value) -> Option<ListKey> {
    match v {
        Value::Counter(c) => if 0 <= c.position() <= usize::MAX {
            Some(ListKey::Integer(c.position() as usize))
        } else {
            None
        },
        Value::Struct(rec) => match parsed_u64(rec.base) {
            Some(n) if n <= usize::MAX => Some(ListKey::Integer(n as usize)),
            _ => Some(ListKey::Name(rec.base)),
        },
        Value::List(_) => None,
        Value::Ref(_) => None,
    }
}

/// The list key that a value spells, references followed.
pub open spec fn key_of(frames: Frames, v: Value) -> Option<ListKey> {
    match v {
        Value::Ref(r) => match deref(frames, r) {
            Some(target) => plain_key(target),
            None => None,
        },
        _ => plain_key(v),
    }
}

/// Whether `v` is a struct whose base is `name`.
pub open spec fn is_named(v: Value, name: Seq<char>) -> bool {
    v matches Value::Struct(rec) && rec.base == name
}

/// The position of the first struct in `list` whose base is `name`.
pub open spec fn find_named(list: Seq<Value>, name: Seq<char>) -> Option<int>
    decreases list.len(),
{
    if list.len() == 0 {
        None
    } else {
        match find_named(list.drop_last(), name) {
            Some(i) => Some(i),
            None => if is_named(list.last(), name) {
                Some(list.len() - 1)
            } else {
                None
            },
        }
    }
}

/// The element of `list` that `key` selects.
pub open spec fn select(list: Seq<Value>, key: ListKey) -> Result<Value, Failure> {
    match key {
        ListKey::Integer(i) => if i < list.len() {
            Ok(list[i as int])
        } else {
            Err(Failure::InvalidIdx)
        },
        ListKey::Name(name) => match find_named(list, name) {
            Some(i) => Ok(list[i]),
            None => Err(Failure::InvalidIdx),
        },
    }
}

/// The list key that the index `idx` evaluates to.
pub open spec fn index_key(frames: Frames, idx: VariableIdx) -> Result<ListKey, Failure>
    decreases idx, 0nat,
{
    match idx {
        VariableIdx::Integer(i) => Ok(ListKey::Integer(i)),
        VariableIdx::Variable(id) => match resolve(frames, id) {
            Err(e) => Err(e),
            Ok(v) => match key_of(frames, v) {
                Some(k) => Ok(k),
                None => Err(Failure::InvalidIdx),
            },
        },
    }
}

/// What is left of `v` after the index and the field chain of `id` have been
/// applied to it, in that order.
pub open spec fn narrow(frames: Frames, v: Value, id: VarFieldId) -> Result<Value, Failure>
    decreases id, 0nat,
{
    let indexed = match id.idx {
        None => Ok(v),
        Some(idx) => match v {
            Value::List(l) => match index_key(frames, *idx) {
                Err(e) => Err(e),
                Ok(k) => select(l, k),
            },
            _ => Err(Failure::NotAList),
        },
    };
    match indexed {
        Err(e) => Err(e),
        Ok(o) => match id.field {
            None => Ok(o),
            Some(f) => project(frames, o, *f),
        },
    }
}

/// The struct that `obj` is, or stands for when it is a reference.
pub open spec fn struct_of(frames: Frames, obj: Value) -> Result<Record, Failure> {
    match obj {
        Value::Struct(rec) => Ok(rec),
        Value::Ref(r) => match deref(frames, r) {
            Some(Value::Struct(rec)) => Ok(rec),
            Some(other) => Err(Failure::NotAStruct(other)),
            None => Err(Failure::MissingVariable(r.target)),
        },
        other => Err(Failure::NotAStruct(other)),
    }
}

/// The properties of `obj`: its own when it is a struct, those of the struct
/// it stands for when it is a reference.
pub open spec fn properties_of(frames: Frames, obj: Value) -> Result<Map<usize, Value>, Failure> {
    match struct_of(frames, obj) {
        Ok(rec) => Ok(rec.properties),
        Err(e) => Err(e),
    }
}

/// The property of `obj` that the path `id` names.
pub open spec fn project(frames: Frames, obj: Value, id: VarFieldId) -> Result<Value, Failure>
    decreases id, 1nat,
{
    match properties_of(frames, obj) {
        Err(e) => Err(e),
        Ok(properties) => if properties.contains_key(id.var.0) {
            narrow(frames, properties[id.var.0], id)
        } else {
            Err(Failure::MissingField(id.var))
        },
    }
}

/// The value that the path `id` names.
pub open spec fn resolve(frames: Frames, id: VarFieldId) -> Result<Value, Failure>
    decreases id, 1nat,
{
    match find_scope(frames, id.var.0) {
        None => Err(Failure::MissingVariable(id.var)),
        Some(s) => narrow(frames, frames[s][id.var.0], id),
    }
}

/// The scopes with empty ones added at the inner end until there are `n`.
pub open spec fn grown(frames: Frames, n: nat) -> Frames {
    if frames.len() >= n {
        frames
    } else {
        frames + Seq::new((n - frames.len()) as nat, |i: int| Map::<usize, Value>::empty())
    }
}

/// The scopes with `k` bound to `v` in scope `scope`.
pub open spec fn bound_in(frames: Frames, scope: int, k: usize, v: Value) -> Frames {
    frames.update(scope, frames[scope].insert(k, v))
}

/// The scope that an insertion goes to: the one asked for, else the
/// innermost, which is made first where there is none.
pub open spec fn insert_scope(frames: Frames, scope: Option<usize>) -> int {
    match scope {
        Some(s) => s as int,
        None => if frames.len() == 0 {
            0
        } else {
            frames.len() - 1
        },
    }
}

/// The scopes after `k` has been bound to `v` in the scope asked for, with
/// empty scopes added as far as that scope did not exist yet.
pub open spec fn inserted(frames: Frames, k: usize, v: Value, scope: Option<usize>) -> Frames {
    let s = insert_scope(frames, scope);
    bound_in(grown(frames, (s + 1) as nat), s, k, v)
}

/// The scopes after `v` has been assigned to the variable `id`, or to its
/// property `property`: the innermost binding of `id` changes; where there
/// is none, a plain assignment binds `id` in the innermost scope.
pub open spec fn assigned(frames: Frames, id: VarNameId, property: Option<VarNameId>, v: Value) -> Result<
    Frames,
    Failure,
> {
    match property {
        Some(p) => match find_scope(frames, id.0) {
            None => Err(Failure::MissingVariable(id)),
            Some(s) => match frames[s][id.0] {
                Value::Struct(rec) => Ok(
                    bound_in(
                        frames,
                        s,
                        id.0,
                        Value::Struct(
                            Record { base: rec.base, properties: rec.properties.insert(p.0, v) },
                        ),
                    ),
                ),
                other => Err(Failure::NotAStruct(other)),
            },
        },
        None => match find_scope(frames, id.0) {
            Some(s) => Ok(bound_in(frames, s, id.0, v)),
            None => Ok(inserted(frames, id.0, v, None)),
        },
    }
}

/// The text of a value other than a reference: a struct's base, a
/// counter's position in decimal. A list has none.
pub open spec fn plain_text(v: Value) -> Result<Seq<char>, Failure> {
    match v {
        Value::Struct(rec) => Ok(rec.base),
        Value::Counter(c) => Ok(decimal(c.position() as int)),
        Value::List(_) => Err(Failure::NotAStruct(v)),
        Value::Ref(r) => Err(Failure::MissingVariable(r.target)),
    }
}

/// The text of a value, references followed.
pub open spec fn text_of(frames: Frames, v: Value) -> Result<Seq<char>, Failure> {
    match v {
        Value::Ref(r) => match deref(frames, r) {
            Some(target) => plain_text(target),
            None => Err(Failure::MissingVariable(r.target)),
        },
        _ => plain_text(v),
    }
}

/// What a borrowed object, or the failure to find one, holds.
pub open spec fn outcome(r: Result<&Object, VariableAccessError>) -> Result<Value, Failure> {
    match r {
        Ok(o) => Ok(o@),
        Err(e) => Err(e@),
    }
}

/// What an optional borrowed object holds.
pub open spec fn held(r: Option<&Object>) -> Option<Value> {
    match r {
        Some(o) => Some(o@),
        None => None,
    }
}

} // verus!
