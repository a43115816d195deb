//! Expressions and what they evaluate to.

use crate::program::ids::VarNameId;
use crate::program::instruction::IterTarget;
use crate::program::object::{
    lemma_list_view, lemma_struct_view, list_view, Counter, Object, Record,
    Struct, Value,
};
use crate::program::path::{
    resolve, text_of, Failure, Frames, VarFieldId, VariableAccessError,
};
use crate::program::state::ProgramState;
use crate::text::{parse_i64, parsed_i64, push_str};
use std::collections::HashMap;
use vstd::prelude::*;

verus! {

/// One piece of a string expression: literal text, or the text of a variable.
#[derive(Clone, Debug)]
pub enum StringInstance {
    String(String),
    Variable(VarFieldId),
}

/// A string built by joining its pieces.
#[derive(Clone, Debug)]
pub struct StringExpr(pub Vec<StringInstance>);

impl Default for StringExpr {
    fn default() -> (r: Self)
        ensures
            r.0@.len() == 0,
    {
        StringExpr(Vec::new())
    }
}

/// The text of one piece.
pub open spec fn piece_text(frames: Frames, piece: StringInstance) -> Result<Seq<char>, Failure> {
    match piece {
        StringInstance::String(s) => Ok(s@),
        StringInstance::Variable(id) => match resolve(frames, id) {
            Err(e) => Err(e),
            Ok(v) => text_of(frames, v),
        },
    }
}

/// The texts of the pieces joined in order, or the failure of the first
/// piece that has none.
pub open spec fn string_value(frames: Frames, pieces: Seq<StringInstance>) -> Result<
    Seq<char>,
    Failure,
>
    decreases pieces.len(),
{
    if pieces.len() == 0 {
        Ok(Seq::empty())
    } else {
        match string_value(frames, pieces.drop_last()) {
            Err(e) => Err(e),
            Ok(head) => match piece_text(frames, pieces.last()) {
                Err(e) => Err(e),
                Ok(tail) => Ok(head + tail),
            },
        }
    }
}

/// What a string, or the failure to build one, holds.
pub open spec fn string_outcome(r: Result<String, VariableAccessError>) -> Result<
    Seq<char>,
    Failure,
> {
    match r {
        Ok(s) => Ok(s@),
        Err(e) => Err(e@),
    }
}

impl StringExpr {
    /// The string that the pieces spell in the given state.
    pub fn evaluate(&self, state: &ProgramState) -> (r: Result<String, VariableAccessError>)
        ensures
            string_outcome(r) == string_value(state@, self.0@),
    {
        let mut output = String::new();
        let mut i: usize = 0;
        while i < self.0.len()
            invariant
                i <= self.0.len(),
                string_value(state@, self.0@.take(i as int)) == Ok::<Seq<char>, Failure>(output@),
            decreases self.0.len() - i,
        {
            let ghost before = output@;
            proof {
                assert(self.0@.take(i + 1).drop_last() =~= self.0@.take(i as int));
                assert(self.0@.take(i + 1).last() == self.0@[i as int]);
            }
            match &self.0[i] {
                StringInstance::String(value) => {
                    push_str(&mut output, value.as_str());
                },
                StringInstance::Variable(var) => {
                    let object = match state.get_object(var) {
                        Ok(object) => object,
                        Err(e) => {
                            proof {
                                lemma_string_value_fails(state@, self.0@, i + 1);
                            }
                            return Err(e);
                        },
                    };
                    match object.write_to_string(state, &mut output) {
                        Ok(()) => {
                            assert(output@ =~= before + output@.skip(before.len() as int));
                        },
                        Err(e) => {
                            proof {
                                lemma_string_value_fails(state@, self.0@, i + 1);
                            }
                            return Err(e);
                        },
                    }
                },
            }
            i += 1;
        }
        proof {
            assert(self.0@.take(i as int) =~= self.0@);
        }
        Ok(output)
    }
}

/// A failure among the first `n` pieces is the failure of the whole.
pub proof fn lemma_string_value_fails(frames: Frames, pieces: Seq<StringInstance>, n: int)
    requires
        0 <= n <= pieces.len(),
        string_value(frames, pieces.take(n)) is Err,
    ensures
        string_value(frames, pieces) == string_value(frames, pieces.take(n)),
    decreases pieces.len() - n,
{
    if n < pieces.len() {
        assert(pieces.take(n + 1).drop_last() =~= pieces.take(n));
        lemma_string_value_fails(frames, pieces, n + 1);
    } else {
        assert(pieces.take(n) =~= pieces);
    }
}

/// A bound of a range: a literal, or a string that spells one.
#[derive(Clone, Debug)]
pub enum RangeExpr {
    Integer(i64),
    Variable(StringExpr),
}

/// The number that a bound evaluates to.
pub open spec fn range_value(frames: Frames, bound: RangeExpr) -> Result<i64, Failure> {
    match bound {
        RangeExpr::Integer(v) => Ok(v),
        RangeExpr::Variable(expr) => match string_value(frames, expr.0@) {
            Err(e) => Err(e),
            Ok(text) => match parsed_i64(text) {
                Some(v) => Ok(v),
                None => Err(Failure::InvalidIdx),
            },
        },
    }
}

/// What a number, or the failure to find one, holds.
pub open spec fn number_outcome(r: Result<i64, VariableAccessError>) -> Result<i64, Failure> {
    match r {
        Ok(v) => Ok(v),
        Err(e) => Err(e@),
    }
}

impl RangeExpr {
    /// The number that this bound evaluates to in the given state.
    pub fn evaluate(&self, state: &ProgramState) -> (r: Result<i64, VariableAccessError>)
        ensures
            number_outcome(r) == range_value(state@, *self),
    {
        match self {
            RangeExpr::Integer(value) => Ok(*value),
            RangeExpr::Variable(value) => {
                let expr = match value.evaluate(state) {
                    Ok(expr) => expr,
                    Err(e) => {
                        return Err(e);
                    },
                };
                match parse_i64(expr.as_str()) {
                    Some(v) => Ok(v),
                    None => Err(VariableAccessError::InvalidIdx),
                }
            },
        }
    }
}

/// What a loop is written to step over.
#[derive(Clone, Debug)]
pub enum IterTargetExpr {
    Variable(VarNameId),
    Range { start: RangeExpr, end: RangeExpr },
}

impl IterTargetExpr {
    /// What the loop steps over, without the bounds of a range.
    pub fn to_itertarget(&self) -> (r: IterTarget)
        ensures
            r == self.target(),
    {
        match self {
            IterTargetExpr::Variable(id) => IterTarget::Variable(*id),
            IterTargetExpr::Range { .. } => IterTarget::Range,
        }
    }

    /// What [`IterTargetExpr::to_itertarget`] returns.
    pub open spec fn target(&self) -> IterTarget {
        match self {
            IterTargetExpr::Variable(id) => IterTarget::Variable(*id),
            IterTargetExpr::Range { .. } => IterTarget::Range,
        }
    }
}

/// A struct written as an expression for its base and one for each property.
#[derive(Debug)]
pub struct StructExpr {
    pub base: StringExpr,
    /// The properties, each under the number of its name.
    pub properties: HashMap<usize, ObjectExpr>,
}

/// An expression for an object.
#[derive(Debug)]
pub enum ObjectExpr {
    Clone(VarFieldId),
    List(Vec<ObjectExpr>),
    Counter(RangeExpr, RangeExpr),
    Struct(StructExpr),
}

/// The values of the first `n` items, if each of them has one.
pub open spec fn list_value(frames: Frames, items: Vec<ObjectExpr>, n: nat) -> Option<Seq<Value>>
    decreases items, n,
{
    if n == 0 || n > items@.len() {
        Some(Seq::empty())
    } else {
        match list_value(frames, items, (n - 1) as nat) {
            None => None,
            Some(head) => match object_value(frames, items@[n - 1]) {
                None => None,
                Some(v) => Some(head.push(v)),
            },
        }
    }
}

/// The value of an expression, if evaluating it succeeds: a copy of what a
/// path names, a list of the items' values, a counter at the start of its
/// range, or a struct of the base's text and the properties' values.
pub open spec fn object_value(frames: Frames, e: ObjectExpr) -> Option<Value>
    decreases e, 0nat,
{
    match e {
        ObjectExpr::Clone(id) => match resolve(frames, id) {
            Ok(v) => Some(v),
            Err(_) => None,
        },
        ObjectExpr::List(items) => match list_value(frames, items, items@.len()) {
            Some(values) => Some(Value::List(values)),
            None => None,
        },
        ObjectExpr::Counter(min, max) => match (range_value(frames, min), range_value(frames, max)) {
            (Ok(start), Ok(end)) => Some(Value::Counter(Counter { offset: 0, start, end })),
            _ => None,
        },
        ObjectExpr::Struct(s) => if (forall|k: usize|
            s.properties@.contains_key(k) ==> object_value(frames, s.properties@[k]) is Some)
            && string_value(frames, s.base.0@) is Ok {
            Some(
                Value::Struct(
                    Record {
                        base: string_value(frames, s.base.0@)->Ok_0,
                        properties: Map::new(
                            |k: usize| s.properties@.contains_key(k),
                            |k: usize|
                                if s.properties@.contains_key(k) {
                                    object_value(frames, s.properties@[k])->0
                                } else {
                                    arbitrary()
                                },
                        ),
                    },
                ),
            )
        } else {
            None
        },
    }
}

/// Whether `f` is the failure of the first of the first `n` items that has
/// no value.
pub open spec fn list_may_fail(frames: Frames, items: Vec<ObjectExpr>, n: nat, f: Failure) -> bool
    decreases items, n,
{
    if n == 0 || n > items@.len() {
        false
    } else if list_value(frames, items, (n - 1) as nat) is Some {
        may_fail(frames, items@[n - 1], f)
    } else {
        list_may_fail(frames, items, (n - 1) as nat, f)
    }
}

/// Whether evaluating `e` may report `f`. Paths, bounds and strings fail in
/// one way only, and the items of a list are taken in order. The properties
/// of a struct are taken in no fixed order, so any property that fails may
/// be the one reported; the base is taken after all of them.
pub open spec fn may_fail(frames: Frames, e: ObjectExpr, f: Failure) -> bool
    decreases e, 0nat,
{
    match e {
        ObjectExpr::Clone(id) => resolve(frames, id) == Err::<Value, Failure>(f),
        ObjectExpr::List(items) => list_may_fail(frames, items, items@.len(), f),
        ObjectExpr::Counter(min, max) => match range_value(frames, min) {
            Err(e) => e == f,
            Ok(_) => range_value(frames, max) == Err::<i64, Failure>(f),
        },
        ObjectExpr::Struct(s) => {
            ||| exists|k: usize|
                s.properties@.contains_key(k) && may_fail(frames, #[trigger] s.properties@[k], f)
            ||| ((forall|k: usize|
                s.properties@.contains_key(k) ==> object_value(frames, s.properties@[k]) is Some)
                && string_value(frames, s.base.0@) == Err::<Seq<char>, Failure>(f))
        },
    }
}

/// An expression that has a value does not fail.
pub proof fn lemma_value_excludes_failure(frames: Frames, e: ObjectExpr, f: Failure)
    requires
        object_value(frames, e) is Some,
    ensures
        !may_fail(frames, e, f),
    decreases e, 0nat,
{
    match e {
        ObjectExpr::List(items) => {
            lemma_list_value_excludes_failure(frames, items, items@.len(), f);
        },
        ObjectExpr::Struct(s) => {
            assert forall|k: usize| s.properties@.contains_key(k) implies !may_fail(
                frames,
                #[trigger] s.properties@[k],
                f,
            ) by {
                lemma_value_excludes_failure(frames, s.properties@[k], f);
            }
        },
        _ => {},
    }
}

/// Items that all have a value do not fail.
pub proof fn lemma_list_value_excludes_failure(
    frames: Frames,
    items: Vec<ObjectExpr>,
    n: nat,
    f: Failure,
)
    requires
        list_value(frames, items, n) is Some,
    ensures
        !list_may_fail(frames, items, n, f),
    decreases items, n,
{
    if !(n == 0 || n > items@.len()) {
        lemma_value_excludes_failure(frames, items@[n - 1], f);
    }
}

impl ObjectExpr {
    /// The object that this expression evaluates to in the given state, or
    /// the failure of the part that could not be evaluated.
    #[verifier::loop_isolation(false)]
    #[verifier::rlimit(40)]
    pub fn evaluate(&self, state: &ProgramState) -> (r: Result<Object, VariableAccessError>)
        ensures
            match r {
                Ok(o) => object_value(state@, *self) == Some(o@),
                Err(e) => object_value(state@, *self) is None && may_fail(state@, *self, e@),
            },
        decreases self,
    {
        match self {
            ObjectExpr::Clone(variable_ref) => {
                match state.get_object(variable_ref) {
                    Ok(object) => Ok(object.clone()),
                    Err(e) => Err(e),
                }
            },
            ObjectExpr::List(list_expr) => {
                let mut list: Vec<Object> = Vec::with_capacity(list_expr.len());
                let mut i: usize = 0;
                while i < list_expr.len()
                    invariant
                        i <= list_expr.len(),
                        list_value(state@, *list_expr, i as nat) == Some(list_view(list@)),
                    decreases list_expr.len() - i,
                {
                    let ghost before = list@;
                    match list_expr[i].evaluate(state) {
                        Ok(object) => {
                            list.push(object);
                            assert(list_view(list@) =~= list_view(before).push(object@));
                        },
                        Err(e) => {
                            proof {
                                lemma_list_fails(state@, *list_expr, (i + 1) as nat, e@);
                            }
                            return Err(e);
                        },
                    }
                    i += 1;
                }
                proof {
                    lemma_list_view(list);
                }
                Ok(Object::List(list))
            },
            ObjectExpr::Counter(min, max) => {
                let min = match min.evaluate(state) {
                    Ok(v) => v,
                    Err(e) => {
                        return Err(e);
                    },
                };
                let max = match max.evaluate(state) {
                    Ok(v) => v,
                    Err(e) => {
                        return Err(e);
                    },
                };
                Ok(Object::Counter(Counter { offset: 0, start: min, end: max }))
            },
            ObjectExpr::Struct(value) => {
                let mut properties: HashMap<usize, Object> = HashMap::new();
                for (key, item) in it: value.properties.iter()
                    invariant
                        forall|j: int|
                            0 <= j < it.index() ==> properties@.contains_key(*it.seq()[j].0),
                        forall|k: usize|
                            properties@.contains_key(k) ==> value.properties@.contains_key(k)
                                && object_value(state@, value.properties@[k]) == Some(
                                properties@[k]@,
                            ),
                {
                    assert(value.properties@.contains_key(*key) && value.properties@[*key] == *item);
                    match item.evaluate(state) {
                        Ok(object) => {
                            properties.insert(*key, object);
                        },
                        Err(e) => {
                            return Err(e);
                        },
                    }
                }
                assert(forall|k: usize|
                    value.properties@.contains_key(k) ==> properties@.contains_key(k));
                let base = match value.base.evaluate(state) {
                    Ok(base) => base,
                    Err(e) => {
                        return Err(e);
                    },
                };
                let made = Struct::new(base, properties);
                proof {
                    lemma_struct_view(made);
                    assert(made@.properties =~= object_value(state@, *self)->0->Struct_0.properties);
                }
                Ok(Object::Struct(made))
            },
        }
    }
}

/// A failure of the first item without a value among the first `n` is a
/// failure of the whole list.
pub proof fn lemma_list_fails(frames: Frames, items: Vec<ObjectExpr>, n: nat, f: Failure)
    requires
        0 < n <= items@.len(),
        list_value(frames, items, (n - 1) as nat) is Some,
        object_value(frames, items@[n - 1]) is None,
        may_fail(frames, items@[n - 1], f),
    ensures
        list_value(frames, items, items@.len()) is None,
        list_may_fail(frames, items, items@.len(), f),
{
    lemma_list_fails_from(frames, items, n, items@.len(), f);
}

/// A list that fails among its first `n` items fails the same way among
/// any longer prefix.
pub proof fn lemma_list_fails_from(frames: Frames, items: Vec<ObjectExpr>, n: nat, m: nat, f: Failure)
    requires
        0 < n <= m <= items@.len(),
        list_value(frames, items, (n - 1) as nat) is Some,
        object_value(frames, items@[n - 1]) is None,
        may_fail(frames, items@[n - 1], f),
    ensures
        list_value(frames, items, m) is None,
        list_may_fail(frames, items, m, f),
    decreases m,
{
    if m > n {
        lemma_list_fails_from(frames, items, n, (m - 1) as nat, f);
    }
}

} // verus!
