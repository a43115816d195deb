//! The commands of a process-orchestration program and what they evaluate
//! to.

use super::expr::{string_outcome, string_value, StringExpr};
use super::process::{route_view, texts, Launch, ProcessInfo};
use crate::program::object::{lemma_list_view, lemma_struct_view, list_view, Object, Value};
use crate::program::path::{
    deref, resolve, Failure, Frames, VarFieldId, VariableAccessError,
};
use crate::program::state::ProgramState;
use crate::text::{decimal, i64_to_string};
use vstd::prelude::*;

verus! {

/// Where a stream of a process goes: to the display, to a file made anew,
/// or to the end of a file.
#[derive(Clone, Debug, PartialEq)]
pub enum OutputMap<T> {
    Print,
    Create(T),
    Append(T),
}

impl<T> OutputMap<T> {
    /// The same routing with `f` applied to the target, if there is one.
    pub fn map<U, F: FnOnce(T) -> U>(self, f: F) -> (r: OutputMap<U>)
        requires
            match self {
                OutputMap::Print => true,
                OutputMap::Create(value) => f.requires((value,)),
                OutputMap::Append(value) => f.requires((value,)),
            },
        ensures
            match self {
                OutputMap::Print => r is Print,
                OutputMap::Create(value) => r matches OutputMap::Create(u) && f.ensures((value,), u),
                OutputMap::Append(value) => r matches OutputMap::Append(u) && f.ensures((value,), u),
            },
    {
        match self {
            OutputMap::Print => OutputMap::Print,
            OutputMap::Create(value) => OutputMap::Create(f(value)),
            OutputMap::Append(value) => OutputMap::Append(f(value)),
        }
    }

    /// The same routing with `f` applied to a borrow of the target, if there
    /// is one.
    pub fn map_ref<U, F: FnOnce(&T) -> U>(&self, f: F) -> (r: OutputMap<U>)
        requires
            match self {
                OutputMap::Print => true,
                OutputMap::Create(value) => f.requires((value,)),
                OutputMap::Append(value) => f.requires((value,)),
            },
        ensures
            match self {
                OutputMap::Print => r is Print,
                OutputMap::Create(value) => r matches OutputMap::Create(u) && f.ensures((value,), u),
                OutputMap::Append(value) => r matches OutputMap::Append(u) && f.ensures((value,), u),
            },
    {
        match self {
            OutputMap::Print => OutputMap::Print,
            OutputMap::Create(value) => OutputMap::Create(f(value)),
            OutputMap::Append(value) => OutputMap::Append(f(value)),
        }
    }

    /// The same routing with `f` applied to a borrow of the target, if there
    /// is one, or the failure of `f`.
    pub fn map_ref_with_err<U, E, F: FnOnce(&T) -> Result<U, E>>(&self, f: F) -> (r: Result<
        OutputMap<U>,
        E,
    >)
        requires
            match self {
                OutputMap::Print => true,
                OutputMap::Create(value) => f.requires((value,)),
                OutputMap::Append(value) => f.requires((value,)),
            },
        ensures
            match self {
                OutputMap::Print => r matches Ok(m) && m is Print,
                OutputMap::Create(value) => match r {
                    Ok(m) => m matches OutputMap::Create(u) && f.ensures((value,), Ok(u)),
                    Err(e) => f.ensures((value,), Err(e)),
                },
                OutputMap::Append(value) => match r {
                    Ok(m) => m matches OutputMap::Append(u) && f.ensures((value,), Ok(u)),
                    Err(e) => f.ensures((value,), Err(e)),
                },
            },
    {
        match self {
            OutputMap::Print => Ok(OutputMap::Print),
            OutputMap::Create(value) => match f(value) {
                Ok(u) => Ok(OutputMap::Create(u)),
                Err(e) => Err(e),
            },
            OutputMap::Append(value) => match f(value) {
                Ok(u) => Ok(OutputMap::Append(u)),
                Err(e) => Err(e),
            },
        }
    }
}

/// The bases of the elements of a list, each of which has to be a struct;
/// else the failure names the first that is none.
pub open spec fn list_texts(list: Seq<Value>) -> Result<Seq<Seq<char>>, Failure>
    decreases list.len(),
{
    if list.len() == 0 {
        Ok(Seq::empty())
    } else {
        match list_texts(list.drop_last()) {
            Err(e) => Err(e),
            Ok(head) => match list.last() {
                Value::Struct(rec) => Ok(head.push(rec.base)),
                other => Err(Failure::NotAStruct(other)),
            },
        }
    }
}

/// The arguments that a value other than a reference stands for: a struct
/// its base, a counter every number of its range in decimal, a list the
/// bases of its elements.
pub open spec fn plain_args(v: Value) -> Result<Seq<Seq<char>>, Failure> {
    match v {
        Value::Struct(rec) => Ok(seq![rec.base]),
        Value::Counter(c) => Ok(Seq::new(c.length() as nat, |i: int| decimal(c.start + i))),
        Value::List(l) => list_texts(l),
        Value::Ref(r) => Err(Failure::MissingVariable(r.target)),
    }
}

/// The arguments that a value stands for, references followed.
pub open spec fn splat(frames: Frames, v: Value) -> Result<Seq<Seq<char>>, Failure> {
    match v {
        Value::Ref(r) => match deref(frames, r) {
            Some(target) => plain_args(target),
            None => Err(Failure::MissingVariable(r.target)),
        },
        _ => plain_args(v),
    }
}

/// An argument of a command: one string, or everything that a variable
/// stands for.
#[derive(Debug)]
pub enum ArgBuilder {
    String(StringExpr),
    Splat(VarFieldId),
}

/// The arguments that an argument expression evaluates to.
pub open spec fn arg_value(frames: Frames, arg: ArgBuilder) -> Result<Seq<Seq<char>>, Failure> {
    match arg {
        ArgBuilder::String(expr) => match string_value(frames, expr.0@) {
            Ok(s) => Ok(seq![s]),
            Err(e) => Err(e),
        },
        ArgBuilder::Splat(id) => match resolve(frames, id) {
            Ok(v) => splat(frames, v),
            Err(e) => Err(e),
        },
    }
}

/// The arguments that one argument expression stands for, handed out one by
/// one.
pub enum ObjectIter<'a> {
    Once(Option<String>),
    Iter { object: &'a Object, idx: usize },
}

impl<'a> ObjectIter<'a> {
    /// Whether every argument can be handed out: the object is no
    /// reference, and where it is a list each of its elements is a struct.
    pub open spec fn wf(&self) -> bool {
        match self {
            ObjectIter::Once(_) => true,
            ObjectIter::Iter { object, idx } => plain_args(object@) is Ok,
        }
    }

    /// The arguments that are still to come.
    pub open spec fn remaining(&self) -> Seq<Seq<char>> {
        match self {
            ObjectIter::Once(Some(s)) => seq![s@],
            ObjectIter::Once(None) => Seq::empty(),
            ObjectIter::Iter { object, idx } => {
                let all = plain_args(object@)->Ok_0;
                if *idx <= all.len() {
                    all.skip(*idx as int)
                } else {
                    Seq::empty()
                }
            },
        }
    }

    /// The one argument `value`.
    pub fn once(value: String) -> (r: Self)
        ensures
            r.wf(),
            r.remaining() == seq![value@],
    {
        Self::Once(Some(value))
    }

    /// The arguments that `object` stands for, a reference being followed
    /// first.
    #[verifier::loop_isolation(false)]
    pub fn object_iter(state: &'a ProgramState, object: &'a Object) -> (r: Result<
        Self,
        VariableAccessError,
    >)
        ensures
            match r {
                Ok(iter) => iter.wf() && splat(state@, object@) == Ok::<Seq<Seq<char>>, Failure>(
                    iter.remaining(),
                ),
                Err(e) => splat(state@, object@) == Err::<Seq<Seq<char>>, Failure>(e@),
            },
    {
        let object = match object {
            Object::Ref(variable_ref) => match state.evaluate_ref(*variable_ref) {
                Some(target) => target,
                None => {
                    return Err(VariableAccessError::MissingVariable(variable_ref.target));
                },
            },
            object => object,
        };
        if let Object::List(vec) = object {
            proof {
                lemma_list_view(*vec);
            }
            let mut i: usize = 0;
            while i < vec.len()
                invariant
                    i <= vec.len(),
                    list_texts(list_view(vec@).take(i as int)) is Ok,
                decreases vec.len() - i,
            {
                proof {
                    let all = list_view(vec@);
                    assert(all.take(i + 1).drop_last() =~= all.take(i as int));
                    assert(all.take(i + 1).last() == vec@[i as int]@);
                }
                match &vec[i] {
                    Object::Struct(_) => {},
                    other => {
                        proof {
                            assert(list_texts(list_view(vec@).take(i + 1)) == Err::<
                                Seq<Seq<char>>,
                                Failure,
                            >(Failure::NotAStruct(other@)));
                            lemma_list_texts_fails(list_view(vec@), i + 1);
                        }
                        return Err(VariableAccessError::NotAStruct(other.clone()));
                    },
                }
                i += 1;
            }
            proof {
                assert(list_view(vec@).take(i as int) =~= list_view(vec@));
            }
        }
        let r = Self::Iter { object, idx: 0 };
        assert(r.remaining() =~= plain_args(object@)->Ok_0);
        Ok(r)
    }

    /// Hands out the next argument, if one is left.
    pub fn next(&mut self) -> (r: Option<String>)
        requires
            old(self).wf(),
        ensures
            final(self).wf(),
            match r {
                Some(s) => old(self).remaining().len() > 0 && s@ == old(self).remaining()[0]
                    && final(self).remaining() == old(self).remaining().skip(1),
                None => old(self).remaining().len() == 0 && final(self).remaining().len() == 0,
            },
    {
        match self {
            ObjectIter::Once(value) => {
                let r = value.take();
                proof {
                    if r is Some {
                        assert(seq![r->0@].skip(1) =~= Seq::<Seq<char>>::empty());
                    }
                }
                r
            },
            ObjectIter::Iter { object, idx } => {
                let ghost all = plain_args(object@)->Ok_0;
                match object {
                    Object::Counter(counter) => {
                        if *idx >= counter.len() {
                            return None;
                        }
                        let value: i128 = counter.start as i128 + *idx as i128;
                        let text = i64_to_string(value as i64);
                        assert(all.skip(*idx as int + 1) =~= all.skip(*idx as int).skip(1));
                        *idx += 1;
                        Some(text)
                    },
                    Object::Struct(value) => {
                        proof {
                            lemma_struct_view(*value);
                        }
                        if *idx > 0 {
                            None
                        } else {
                            assert(all.skip(1) =~= all.skip(0).skip(1));
                            *idx += 1;
                            Some(value.base.clone())
                        }
                    },
                    Object::List(vec) => {
                        proof {
                            lemma_list_view(*vec);
                            lemma_list_texts_len(list_view(vec@));
                        }
                        if *idx >= vec.len() {
                            return None;
                        }
                        match &vec[*idx] {
                            Object::Struct(value) => {
                                proof {
                                    lemma_struct_view(*value);
                                    lemma_list_texts_index(list_view(vec@), *idx as int);
                                    assert(all.skip(*idx as int + 1) =~= all.skip(*idx as int).skip(
                                        1,
                                    ));
                                }
                                *idx += 1;
                                Some(value.base.clone())
                            },
                            _ => {
                                proof {
                                    lemma_list_texts_index(list_view(vec@), *idx as int);
                                }
                                assert(false);
                                None
                            },
                        }
                    },
                    Object::Ref(_) => {
                        assert(false);
                        None
                    },
                }
            },
        }
    }
}

/// A list that has a non-struct among its first `n` elements has no texts.
pub proof fn lemma_list_texts_fails(list: Seq<Value>, n: int)
    requires
        0 <= n <= list.len(),
        list_texts(list.take(n)) is Err,
    ensures
        list_texts(list) == list_texts(list.take(n)),
    decreases list.len() - n,
{
    if n < list.len() {
        assert(list.take(n + 1).drop_last() =~= list.take(n));
        lemma_list_texts_fails(list, n + 1);
    } else {
        assert(list.take(n) =~= list);
    }
}

/// The texts of a list are as many as its elements.
pub proof fn lemma_list_texts_len(list: Seq<Value>)
    ensures
        list_texts(list) matches Ok(t) ==> t.len() == list.len(),
    decreases list.len(),
{
    if list.len() > 0 {
        lemma_list_texts_len(list.drop_last());
    }
}

/// Where a list has texts, each element is a struct and its text is its
/// base.
pub proof fn lemma_list_texts_index(list: Seq<Value>, i: int)
    requires
        0 <= i < list.len(),
        list_texts(list) is Ok,
    ensures
        list[i] matches Value::Struct(rec) && list_texts(list)->Ok_0.len() == list.len()
            && list_texts(list)->Ok_0[i] == rec.base,
    decreases list.len(),
{
    lemma_list_texts_len(list);
    lemma_list_texts_len(list.drop_last());
    if i < list.len() - 1 {
        lemma_list_texts_index(list.drop_last(), i);
    }
}

impl ArgBuilder {
    /// The arguments that this expression stands for in the given state.
    pub fn evaluate<'a>(&'a self, state: &'a ProgramState) -> (r: Result<
        ObjectIter<'a>,
        VariableAccessError,
    >)
        ensures
            match r {
                Ok(iter) => iter.wf() && arg_value(state@, *self) == Ok::<Seq<Seq<char>>, Failure>(
                    iter.remaining(),
                ),
                Err(e) => arg_value(state@, *self) == Err::<Seq<Seq<char>>, Failure>(e@),
            },
    {
        match self {
            ArgBuilder::String(value) => match value.evaluate(state) {
                Ok(s) => Ok(ObjectIter::once(s)),
                Err(e) => Err(e),
            },
            ArgBuilder::Splat(value) => {
                match state.get_object(value) {
                    Ok(object) => ObjectIter::object_iter(state, object),
                    Err(e) => Err(e),
                }
            },
        }
    }
}

/// A process to start, written as expressions.
#[derive(Debug)]
pub struct Spawn {
    pub working_dir: Option<StringExpr>,
    pub command: StringExpr,
    pub args: Vec<ArgBuilder>,
    pub stdout: OutputMap<StringExpr>,
    pub stderr: OutputMap<StringExpr>,
}

/// A command of a process-orchestration program.
#[derive(Debug)]
pub enum Command {
    /// Lets at most so many processes run at a time.
    LimitSpawn(usize),
    /// Waits so many milliseconds.
    Sleep(u64),
    /// Starts a process.
    Spawn(Spawn),
    /// Waits for every process, at most so many milliseconds.
    WaitAll(Option<u64>),
}

/// The arguments that the expressions stand for, joined in order, or the
/// failure of the first that stands for none.
pub open spec fn args_value(frames: Frames, args: Seq<ArgBuilder>) -> Result<Seq<Seq<char>>, Failure>
    decreases args.len(),
{
    if args.len() == 0 {
        Ok(Seq::empty())
    } else {
        match args_value(frames, args.drop_last()) {
            Err(e) => Err(e),
            Ok(head) => match arg_value(frames, args.last()) {
                Err(e) => Err(e),
                Ok(tail) => Ok(head + tail),
            },
        }
    }
}

/// The routing with its path evaluated.
pub open spec fn route_value(frames: Frames, out: OutputMap<StringExpr>) -> Result<
    OutputMap<Seq<char>>,
    Failure,
> {
    match out {
        OutputMap::Print => Ok(OutputMap::Print),
        OutputMap::Create(expr) => match string_value(frames, expr.0@) {
            Ok(p) => Ok(OutputMap::Create(p)),
            Err(e) => Err(e),
        },
        OutputMap::Append(expr) => match string_value(frames, expr.0@) {
            Ok(p) => Ok(OutputMap::Append(p)),
            Err(e) => Err(e),
        },
    }
}

/// The directory with its path evaluated.
pub open spec fn dir_value(frames: Frames, dir: Option<StringExpr>) -> Result<
    Option<Seq<char>>,
    Failure,
> {
    match dir {
        None => Ok(None),
        Some(expr) => match string_value(frames, expr.0@) {
            Ok(p) => Ok(Some(p)),
            Err(e) => Err(e),
        },
    }
}

/// The process that a spawn command describes: its parts are evaluated in
/// the order command, arguments, standard output, standard error, working
/// directory, and the first failure is the failure of the whole.
pub open spec fn spawn_value(frames: Frames, spawn: Spawn) -> Result<Launch, Failure> {
    match string_value(frames, spawn.command.0@) {
        Err(e) => Err(e),
        Ok(command) => match args_value(frames, spawn.args@) {
            Err(e) => Err(e),
            Ok(args) => match route_value(frames, spawn.stdout) {
                Err(e) => Err(e),
                Ok(stdout) => match route_value(frames, spawn.stderr) {
                    Err(e) => Err(e),
                    Ok(stderr) => match dir_value(frames, spawn.working_dir) {
                        Err(e) => Err(e),
                        Ok(working_dir) => Ok(
                            Launch { command, args, stdout, stderr, working_dir },
                        ),
                    },
                },
            },
        },
    }
}

/// A failure among the first `n` argument expressions is the failure of
/// them all.
pub proof fn lemma_args_value_fails(frames: Frames, args: Seq<ArgBuilder>, n: int)
    requires
        0 <= n <= args.len(),
        args_value(frames, args.take(n)) is Err,
    ensures
        args_value(frames, args) == args_value(frames, args.take(n)),
    decreases args.len() - n,
{
    if n < args.len() {
        assert(args.take(n + 1).drop_last() =~= args.take(n));
        lemma_args_value_fails(frames, args, n + 1);
    } else {
        assert(args.take(n) =~= args);
    }
}

/// The routing that `out` evaluates to in the given state.
fn route(out: &OutputMap<StringExpr>, state: &ProgramState) -> (r: Result<
    OutputMap<String>,
    VariableAccessError,
>)
    ensures
        match r {
            Ok(m) => route_value(state@, *out) == Ok::<OutputMap<Seq<char>>, Failure>(route_view(m)),
            Err(e) => route_value(state@, *out) == Err::<OutputMap<Seq<char>>, Failure>(e@),
        },
{
    let path = |value: &StringExpr| -> (r: Result<String, VariableAccessError>)
        ensures
            string_outcome(r) == string_value(state@, value.0@),
        {
            value.evaluate(state)
        };
    out.map_ref_with_err(path)
}

impl Spawn {
    /// The process that this command describes in the given state.
    pub fn evaluate(&self, state: &ProgramState) -> (r: Result<ProcessInfo, VariableAccessError>)
        ensures
            match r {
                Ok(p) => spawn_value(state@, *self) == Ok::<Launch, Failure>(p@),
                Err(e) => spawn_value(state@, *self) == Err::<Launch, Failure>(e@),
            },
    {
        let command = match self.command.evaluate(state) {
            Ok(command) => command,
            Err(e) => {
                return Err(e);
            },
        };
        let mut process = ProcessInfo::new(command);
        let mut i: usize = 0;
        while i < self.args.len()
            invariant
                i <= self.args.len(),
                process@.command == string_value(state@, self.command.0@)->Ok_0,
                string_value(state@, self.command.0@) is Ok,
                process@.stdout is Print,
                process@.stderr is Print,
                process@.working_dir is None,
                args_value(state@, self.args@.take(i as int)) == Ok::<Seq<Seq<char>>, Failure>(
                    process@.args,
                ),
            decreases self.args.len() - i,
        {
            proof {
                assert(self.args@.take(i + 1).drop_last() =~= self.args@.take(i as int));
                assert(self.args@.take(i + 1).last() == self.args@[i as int]);
            }
            let mut arg = match self.args[i].evaluate(state) {
                Ok(arg) => arg,
                Err(e) => {
                    proof {
                        lemma_args_value_fails(state@, self.args@, i + 1);
                    }
                    return Err(e);
                },
            };
            let ghost before = process@.args;
            let ghost whole = arg.remaining();
            loop
                invariant
                    arg.wf(),
                    process@.command == string_value(state@, self.command.0@)->Ok_0,
                    process@.stdout is Print,
                    process@.stderr is Print,
                    process@.working_dir is None,
                    before + whole == process@.args + arg.remaining(),
                ensures
                    process@.args == before + whole,
                decreases arg.remaining().len(),
            {
                let ghost had = process@.args;
                let ghost left = arg.remaining();
                match arg.next() {
                    Some(text) => {
                        process.args.push(text);
                        assert(process@.args =~= had.push(text@));
                        assert(process@.args + arg.remaining() =~= had + left);
                    },
                    None => {
                        assert(process@.args =~= before + whole);
                        break ;
                    },
                }
            }
            i += 1;
        }
        proof {
            assert(self.args@.take(i as int) =~= self.args@);
        }
        let stdout = match route(&self.stdout, state) {
            Ok(out) => out,
            Err(e) => {
                return Err(e);
            },
        };
        process.set_stdout(stdout);
        let stderr = match route(&self.stderr, state) {
            Ok(out) => out,
            Err(e) => {
                return Err(e);
            },
        };
        process.set_stderr(stderr);
        if let Some(dir) = &self.working_dir {
            let working_dir = match dir.evaluate(state) {
                Ok(dir) => dir,
                Err(e) => {
                    return Err(e);
                },
            };
            process.set_working_dir(working_dir);
        }
        Ok(process)
    }
}

} // verus!
