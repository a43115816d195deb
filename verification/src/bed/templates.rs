//! The commands of a template program.
//!
//! Rendering a template is the caller's work. What belongs here is what
//! comes before it and after it: the strings that say which template to
//! render and where to, and the object that is made of the result.

use super::expr::{
    may_fail, object_value, string_value, ObjectExpr, StringExpr,
};
use crate::program::ids::VarNameId;
use crate::program::object::{
    lemma_list_push, lemma_list_view, lemma_struct_view, list_view, Object, Record, Struct, Value,
};
use crate::program::names::VarNames;
use crate::program::path::{
    bound_in, find_scope, grown, inserted, text_of, Failure, Frames, VariableAccessError,
};
use crate::program::state::lemma_find_scope;
use crate::program::state::ProgramState;
use std::collections::HashMap;
use vstd::prelude::*;

verus! {

/// The scopes after `v` has been yielded to `output`: appended to the list
/// that the outermost scope binds `output` to, or bound there as a list of
/// its own where `output` is bound to no list. Where there is no scope, one
/// is made first.
pub open spec fn yielded(frames: Frames, output: VarNameId, v: Value) -> Frames {
    let frames = grown(frames, 1);
    if frames[0].contains_key(output.0) && frames[0][output.0] is List {
        bound_in(frames, 0, output.0, Value::List(frames[0][output.0]->List_0.push(v)))
    } else {
        bound_in(frames, 0, output.0, Value::List(seq![v]))
    }
}

/// Yields `to_yield` to `output`: appends it to the list that the outermost
/// scope binds `output` to, and binds `output` there to a list of it alone
/// where it is bound to no list yet.
pub fn yield_value(output: VarNameId, to_yield: Object, state: &mut ProgramState)
    ensures
        final(state)@ =~~= yielded(old(state)@, output, to_yield@),
{
    if state.depth() == 0 {
        state.new_scope();
    }
    assert(state@ =~= grown(old(state)@, 1));
    let is_list: bool = match state.scopes()[0].0.get(&output.0) {
        Some(Object::List(_)) => true,
        _ => false,
    };
    if is_list {
        match state.local_mut(0, output) {
            Some(Object::List(list)) => {
                let ghost before = *list;
                list.push(to_yield);
                proof {
                    lemma_list_view(before);
                    lemma_list_view(*list);
                    lemma_list_push(before@, to_yield);
                }
            },
            _ => {
                assert(false);
            },
        }
    } else {
        let mut list: Vec<Object> = Vec::new();
        list.push(to_yield);
        proof {
            lemma_list_view(list);
            assert(list_view(list@) =~= seq![to_yield@]);
        }
        state.insert_local(0, output, Object::List(list));
    }
}

/// What is known of a template besides its name: nothing so far.
#[derive(Clone, Copy, Debug, Default)]
pub struct TemplateInfo {}

/// The strings that say which template to render and what to call the
/// result.
#[derive(Clone, Debug)]
pub struct BuildStringExpr {
    pub template: StringExpr,
    pub output: StringExpr,
}

/// What is asked of the template engine: the template to render and the
/// name of the file to write.
#[derive(Debug)]
pub struct BuildRequest {
    pub template: String,
    pub output: String,
}

/// The request that the two strings evaluate to, the template first.
pub open spec fn request_value(frames: Frames, e: BuildStringExpr) -> Result<
    (Seq<char>, Seq<char>),
    Failure,
> {
    match string_value(frames, e.template.0@) {
        Err(f) => Err(f),
        Ok(template) => match string_value(frames, e.output.0@) {
            Err(f) => Err(f),
            Ok(output) => Ok((template, output)),
        },
    }
}

impl BuildStringExpr {
    /// The request to the template engine that this expression makes in the
    /// given state.
    pub fn evaluate(&self, state: &ProgramState) -> (r: Result<BuildRequest, VariableAccessError>)
        ensures
            match r {
                Ok(req) => request_value(state@, *self) == Ok::<(Seq<char>, Seq<char>), Failure>(
                    (req.template@, req.output@),
                ),
                Err(e) => request_value(state@, *self) == Err::<(Seq<char>, Seq<char>), Failure>(
                    e@,
                ),
            },
    {
        let template = match self.template.evaluate(state) {
            Ok(s) => s,
            Err(e) => {
                return Err(e);
            },
        };
        let output = match self.output.evaluate(state) {
            Ok(s) => s,
            Err(e) => {
                return Err(e);
            },
        };
        Ok(BuildRequest { template, output })
    }
}

/// A struct whose base is the path of a rendered template.
#[derive(Debug)]
pub struct BuildObjectExpr {
    pub base: BuildStringExpr,
    /// The properties, each under the number of its name.
    pub properties: HashMap<usize, ObjectExpr>,
}

/// The struct of the base `base` and the values of the properties, if each
/// of them has one.
pub open spec fn built_value(frames: Frames, properties: Map<usize, ObjectExpr>, base: Seq<char>) -> Option<
    Value,
> {
    if forall|k: usize| properties.contains_key(k) ==> object_value(frames, properties[k]) is Some {
        Some(
            Value::Struct(
                Record {
                    base,
                    properties: Map::new(
                        |k: usize| properties.contains_key(k),
                        |k: usize| object_value(frames, properties[k])->0,
                    ),
                },
            ),
        )
    } else {
        None
    }
}

impl BuildObjectExpr {
    /// An expression for a struct without properties.
    pub fn new(base: BuildStringExpr) -> (r: Self)
        ensures
            r.base == base,
            r.properties@ == Map::<usize, ObjectExpr>::empty(),
    {
        Self { base, properties: HashMap::new() }
    }

    /// The struct that has `base`, the path that the template engine gave
    /// back, for its base and the values of the properties for its
    /// properties. Where a property has no value, the failure of one such
    /// property is returned.
    #[verifier::rlimit(40)]
    pub fn complete(&self, state: &ProgramState, base: String) -> (r: Result<
        Object,
        VariableAccessError,
    >)
        ensures
            match r {
                Ok(o) => built_value(state@, self.properties@, base@) == Some(o@),
                Err(e) => built_value(state@, self.properties@, base@) is None && exists|k: usize|
                    self.properties@.contains_key(k) && may_fail(
                        state@,
                        #[trigger] self.properties@[k],
                        e@,
                    ),
            },
    {
        let mut properties: HashMap<usize, Object> = HashMap::new();
        for (key, item) in it: self.properties.iter()
            invariant
                forall|j: int| 0 <= j < it.index() ==> properties@.contains_key(*it.seq()[j].0),
                forall|k: usize|
                    properties@.contains_key(k) ==> self.properties@.contains_key(k)
                        && object_value(state@, self.properties@[k]) == Some(properties@[k]@),
        {
            assert(self.properties@.contains_key(*key) && self.properties@[*key] == *item);
            match item.evaluate(state) {
                Ok(object) => {
                    properties.insert(*key, object);
                },
                Err(e) => {
                    return Err(e);
                },
            }
        }
        assert(forall|k: usize| self.properties@.contains_key(k) ==> properties@.contains_key(k));
        let made = Struct::new(base, properties);
        proof {
            lemma_struct_view(made);
            assert(made@.properties =~= built_value(
                state@,
                self.properties@,
                base@,
            )->0->Struct_0.properties);
        }
        Ok(Object::Struct(made))
    }
}

/// What a template yields: a struct built from a rendered template, or any
/// object.
#[derive(Debug)]
pub enum YieldExpr {
    Build(BuildObjectExpr),
    Object(ObjectExpr),
}

/// A command of a template program.
#[allow(inconsistent_fields)]
#[derive(Debug)]
pub enum TemplateCommand {
    /// Builds an object from a rendered template and binds `output` to it.
    BuildAssign { output: VarNameId, object: BuildObjectExpr },
    /// Yields an object to the list `output`.
    Yield { output: VarNameId, object: YieldExpr },
}

/// The object that a yield expression stands for, given the path that the
/// template engine gave back where it builds one.
pub open spec fn yield_value_of(frames: Frames, e: YieldExpr, built: Seq<char>) -> Option<Value> {
    match e {
        YieldExpr::Build(b) => built_value(frames, b.properties@, built),
        YieldExpr::Object(o) => object_value(frames, o),
    }
}

/// Whether `f` is a failure that evaluating a yield expression may report.
pub open spec fn yield_may_fail(frames: Frames, e: YieldExpr, f: Failure) -> bool {
    match e {
        YieldExpr::Build(b) => exists|k: usize|
            b.properties@.contains_key(k) && may_fail(frames, #[trigger] b.properties@[k], f),
        YieldExpr::Object(o) => may_fail(frames, o, f),
    }
}

impl TemplateCommand {
    /// The expression whose template this command has rendered, if it has
    /// one rendered.
    pub open spec fn build(&self) -> Option<BuildStringExpr> {
        match self {
            TemplateCommand::BuildAssign { output, object } => Some(object.base),
            TemplateCommand::Yield { output, object: YieldExpr::Build(b) } => Some(b.base),
            TemplateCommand::Yield { output, object: YieldExpr::Object(_) } => None,
        }
    }

    /// The scopes after the command, given the path `built` that the
    /// template engine gave back, if every expression of it has a value.
    pub open spec fn effect(&self, frames: Frames, built: Seq<char>) -> Option<Frames> {
        match self {
            TemplateCommand::BuildAssign { output, object } => match built_value(
                frames,
                object.properties@,
                built,
            ) {
                Some(v) => Some(inserted(frames, output.0, v, None)),
                None => None,
            },
            TemplateCommand::Yield { output, object } => match yield_value_of(
                frames,
                *object,
                built,
            ) {
                Some(v) => Some(yielded(frames, *output, v)),
                None => None,
            },
        }
    }

    /// Whether `f` is a failure that the command may report.
    pub open spec fn may_fail(&self, frames: Frames, f: Failure) -> bool {
        match self {
            TemplateCommand::BuildAssign { output, object } => exists|k: usize|
                object.properties@.contains_key(k) && may_fail(
                    frames,
                    #[trigger] object.properties@[k],
                    f,
                ),
            TemplateCommand::Yield { output, object } => yield_may_fail(frames, *object, f),
        }
    }

    /// What the command asks of the template engine before it can be run:
    /// nothing where it renders no template.
    pub fn request(&self, state: &ProgramState) -> (r: Result<
        Option<BuildRequest>,
        VariableAccessError,
    >)
        ensures
            match self.build() {
                None => r matches Ok(None),
                Some(b) => match r {
                    Ok(Some(req)) => request_value(state@, b) == Ok::<
                        (Seq<char>, Seq<char>),
                        Failure,
                    >((req.template@, req.output@)),
                    Ok(None) => false,
                    Err(e) => request_value(state@, b) == Err::<(Seq<char>, Seq<char>), Failure>(
                        e@,
                    ),
                },
            },
    {
        let base = match self {
            TemplateCommand::BuildAssign { output, object } => &object.base,
            TemplateCommand::Yield { output, object: YieldExpr::Build(b) } => &b.base,
            TemplateCommand::Yield { output, object: YieldExpr::Object(_) } => {
                return Ok(None);
            },
        };
        match base.evaluate(state) {
            Ok(req) => Ok(Some(req)),
            Err(e) => Err(e),
        }
    }

    /// Runs the command. `built` is the path that the template engine gave
    /// back for the command's request. Where the engine failed there is
    /// none, and a command that needs one then does nothing.
    pub fn run(&self, state: &mut ProgramState, built: Option<String>) -> (r: Result<
        (),
        VariableAccessError,
    >)
        ensures
            match r {
                Ok(()) => if self.build() is Some && built is None {
                    final(state)@ == old(state)@
                } else {
                    let path = match built {
                        Some(p) => p@,
                        None => Seq::empty(),
                    };
                    self.effect(old(state)@, path) is Some && final(state)@ =~~= self.effect(
                        old(state)@,
                        path,
                    )->0
                },
                Err(e) => !(self.build() is Some && built is None) && self.may_fail(
                    old(state)@,
                    e@,
                ) && final(state)@ == old(state)@,
            },
    {
        match self {
            TemplateCommand::BuildAssign { output, object } => {
                let base = match built {
                    Some(base) => base,
                    None => {
                        return Ok(());
                    },
                };
                let made = match object.complete(state, base) {
                    Ok(made) => made,
                    Err(e) => {
                        return Err(e);
                    },
                };
                state.insert_var(*output, made, None);
                Ok(())
            },
            TemplateCommand::Yield { output, object: YieldExpr::Build(b) } => {
                let base = match built {
                    Some(base) => base,
                    None => {
                        return Ok(());
                    },
                };
                let made = match b.complete(state, base) {
                    Ok(made) => made,
                    Err(e) => {
                        return Err(e);
                    },
                };
                yield_value(*output, made, state);
                Ok(())
            },
            TemplateCommand::Yield { output, object: YieldExpr::Object(e) } => {
                let made = match e.evaluate(state) {
                    Ok(made) => made,
                    Err(e) => {
                        return Err(e);
                    },
                };
                yield_value(*output, made, state);
                Ok(())
            },
        }
    }
}

/// What a template sees of the variable `k`: its name and its text, where
/// some scope binds it, it has a name, and its innermost binding has a
/// text. A list has none, so lists are not seen.
pub open spec fn seen_as(frames: Frames, names: Seq<Seq<char>>, k: usize) -> Option<
    (Seq<char>, Seq<char>),
> {
    match find_scope(frames, k) {
        Some(s) => if k < names.len() {
            match text_of(frames, frames[s][k]) {
                Ok(t) => Some((names[k as int], t)),
                Err(_) => None,
            }
        } else {
            None
        },
        None => None,
    }
}

/// Whether `pairs` is what a template sees of the variables, `keys` being
/// the variables that the pairs come from, in the same order: each pair is
/// what is seen of its variable, no variable comes twice, and none that is
/// seen is left out.
pub open spec fn is_context(
    frames: Frames,
    names: Seq<Seq<char>>,
    pairs: Seq<(String, String)>,
    keys: Seq<usize>,
) -> bool {
    &&& keys.len() == pairs.len()
    &&& keys.no_duplicates()
    &&& forall|j: int|
        0 <= j < pairs.len() ==> seen_as(frames, names, #[trigger] keys[j]) == Some(
            pair_view(pairs[j]),
        )
    &&& forall|k: usize| seen_as(frames, names, k) is Some ==> keys.contains(k)
}

/// What a pair of strings holds.
pub open spec fn pair_view(p: (String, String)) -> (Seq<char>, Seq<char>) {
    (p.0@, p.1@)
}

/// What a template sees of the variables: the name and the text of each
/// variable that has both, as its innermost binding gives them. The pairs
/// come in no fixed order; no variable comes twice.
#[verifier::rlimit(40)]
pub fn render_context(state: &ProgramState, names: &VarNames) -> (r: Vec<(String, String)>)
    ensures
        exists|keys: Seq<usize>| is_context(state@, names@, r@, keys),
{
    let mut out: Vec<(String, String)> = Vec::new();
    let ghost mut keys: Seq<usize> = Seq::empty();
    let scopes = state.scopes();
    let mut i: usize = scopes.len();
    proof {
        assert forall|k: usize|
            seen_as(state@, names@, k) is Some && find_scope(state@, k)->0 >= i implies keys.contains(
            k,
        ) by {
            lemma_find_scope(state@, k);
        }
    }
    while i > 0
        invariant
            i <= scopes@.len(),
            scopes@.len() == state@.len(),
            forall|j: int| 0 <= j < scopes@.len() ==> (#[trigger] scopes@[j])@ == state@[j],
            keys.len() == out@.len(),
            keys.no_duplicates(),
            forall|j: int|
                0 <= j < out@.len() ==> seen_as(state@, names@, #[trigger] keys[j]) == Some(
                    pair_view(out@[j]),
                ) && find_scope(state@, keys[j])->0 >= i,
            forall|k: usize|
                seen_as(state@, names@, k) is Some && find_scope(state@, k)->0 >= i
                    ==> keys.contains(k),
        decreases i,
    {
        i -= 1;
        let scope = &scopes[i];
        let ghost mut visited: Set<usize> = Set::empty();
        for (key, value) in it: scope.0.iter()
            invariant
                i < scopes@.len(),
                scopes@.len() == state@.len(),
                scope == scopes@[i as int],
                scope@ == state@[i as int],
                keys.len() == out@.len(),
                keys.no_duplicates(),
                forall|j: int|
                    0 <= j < out@.len() ==> seen_as(state@, names@, #[trigger] keys[j]) == Some(
                        pair_view(out@[j]),
                    ) && find_scope(state@, keys[j])->0 >= i,
                forall|k: usize|
                    seen_as(state@, names@, k) is Some && find_scope(state@, k)->0 > i
                        ==> keys.contains(k),
                forall|k: usize|
                    keys.contains(k) && find_scope(state@, k) == Some(i as int) ==> visited.contains(
                        k,
                    ),
                forall|k: usize|
                    visited.contains(k) && seen_as(state@, names@, k) is Some && find_scope(
                        state@,
                        k,
                    ) == Some(i as int) ==> keys.contains(k),
                forall|j: int| 0 <= j < it.index() ==> visited.contains(*(#[trigger] it.seq()[j]).0),
                forall|k: usize| visited.contains(k) ==> exists|j: int|
                    0 <= j < it.index() && *(#[trigger] it.seq()[j]).0 == k,
                it.seq().no_duplicates(),
                forall|j: int|
                    0 <= j < it.seq().len() ==> scope.0@.contains_key(*(#[trigger] it.seq()[j]).0)
                        && scope.0@[*it.seq()[j].0] == *it.seq()[j].1,
                forall|k: usize| #[trigger] scope.0@.contains_key(k) ==> exists|j: int|
                    0 <= j < it.seq().len() && *(#[trigger] it.seq()[j]).0 == k,
        {
            let ghost at = it.index() as int;
            proof {
                assert(!visited.contains(*key)) by {
                    if visited.contains(*key) {
                        let j = choose|j: int| 0 <= j < it.index() && *it.seq()[j].0 == *key;
                        assert(it.seq()[j].0 == it.seq()[at].0);
                    }
                }
                visited = visited.insert(*key);
            }
            let ghost had = keys;
            let innermost: bool = match state.get_value(crate::program::ids::VarNameId(*key)) {
                Some((s, _)) => s == i,
                None => false,
            };
            proof {
                assert(scope.0@.contains_key(*key) && scope.0@[*key] == *value);
                assert(state@[i as int][*key] == value@);
            }
            if innermost {
                match names.evaluate(crate::program::ids::VarNameId(*key)) {
                    Some(name) => {
                        let mut text = String::new();
                        match value.write_to_string(state, &mut text) {
                            Ok(()) => {
                                proof {
                                    assert(text@.skip(0) =~= text@);
                                    assert(!keys.contains(*key));
                                    keys = keys.push(*key);
                                    assert(keys[keys.len() - 1] == *key);
                                }
                                out.push((name.to_owned(), text));
                            },
                            Err(_) => {
                                assert(seen_as(state@, names@, *key) is None);
                            },
                        }
                    },
                    None => {
                        assert(seen_as(state@, names@, *key) is None);
                    },
                }
            } else {
                assert(find_scope(state@, *key) != Some(i as int));
            }
            proof {
                assert forall|k: usize| had.contains(k) implies keys.contains(k) by {
                    let j = choose|j: int| 0 <= j < had.len() && had[j] == k;
                    assert(keys[j] == k);
                }
            }
        }
        proof {
            assert(forall|k: usize| #[trigger] scope.0@.contains_key(k) ==> visited.contains(k));
            assert forall|k: usize|
                seen_as(state@, names@, k) is Some && find_scope(state@, k)->0 >= i implies keys.contains(
                k,
            ) by {
                if find_scope(state@, k)->0 == i {
                    lemma_find_scope(state@, k);
                    assert(scope.0@.contains_key(k));
                }
            }
        }
    }
    proof {
        assert forall|k: usize| seen_as(state@, names@, k) is Some implies keys.contains(k) by {
            lemma_find_scope(state@, k);
        }
        assert(is_context(state@, names@, out@, keys));
    }
    out
}

} // verus!
