//! The loops that a running test script is inside of, and how the script
//! moves through them.

use crate::commands::TestCommand;
use crate::text::{push_str, str_eq, u64_to_string};
use vstd::prelude::*;

verus! {

/// An instruction of a test script.
#[derive(Debug, Clone)]
pub enum Instruction {
    /// Begins a loop whose index is called `id` and that steps over the
    /// values of the parameter `param`.
    BeginFor { id: String, param: String },
    /// Ends the innermost loop.
    NextLoop,
    Command(TestCommand),
}

/// The index of one loop: its name and the step it is at.
#[derive(Clone, PartialEq, Eq, Debug, Hash)]
pub struct LoopIdx {
    pub id: String,
    pub idx: usize,
}

/// Where a loop begins and how many steps it has.
#[derive(Clone, Copy, Debug)]
pub struct LoopPoint {
    pub instruction_idx: usize,
    pub count: usize,
}

/// The indices of the loops that surround an instruction, outermost first.
#[derive(Clone, PartialEq, Eq, Debug, Hash, Default)]
pub struct Stack(pub Vec<LoopIdx>);

/// A process of a test script: its number and the steps of the loops it was
/// started in.
#[derive(Clone, PartialEq, Eq, Debug, Hash)]
pub struct ProcessId {
    pub loop_idx: Stack,
    pub id: usize,
}

/// The step of the innermost of the first `n` loops that is called
/// `loop_id`.
pub open spec fn innermost_idx(loops: Seq<LoopIdx>, loop_id: Seq<char>) -> Option<usize>
    decreases loops.len(),
{
    if loops.len() == 0 {
        None
    } else if loops.last().id@ == loop_id {
        Some(loops.last().idx)
    } else {
        innermost_idx(loops.drop_last(), loop_id)
    }
}

impl Stack {
    /// The step that the innermost loop called `loop_id` is at.
    pub fn get_idx(&self, loop_id: &str) -> (r: Option<usize>)
        ensures
            r == innermost_idx(self.0@, loop_id@),
    {
        let mut i: usize = self.0.len();
        assert(self.0@.take(i as int) =~= self.0@);
        while i > 0
            invariant
                i <= self.0@.len(),
                innermost_idx(self.0@, loop_id@) == innermost_idx(self.0@.take(i as int), loop_id@),
            decreases i,
        {
            proof {
                assert(self.0@.take(i as int).drop_last() =~= self.0@.take(i - 1));
                assert(self.0@.take(i as int).last() == self.0@[i - 1]);
            }
            i -= 1;
            if str_eq(self.0[i].id.as_str(), loop_id) {
                return Some(self.0[i].idx);
            }
        }
        None
    }
}

/// The values of the parameters of a script, each under its name.
#[derive(Clone, Debug, Default)]
pub struct Params(pub Vec<(String, Vec<String>)>);

/// The position of the first of `params` that is called `name`.
pub open spec fn param_at(params: Seq<(String, Vec<String>)>, name: Seq<char>) -> Option<int>
    decreases params.len(),
{
    if params.len() == 0 {
        None
    } else {
        match param_at(params.drop_last(), name) {
            Some(i) => Some(i),
            None => if params.last().0@ == name {
                Some(params.len() - 1)
            } else {
                None
            },
        }
    }
}

/// A match found among the first `n` parameters is the match found among
/// all.
pub proof fn lemma_param_prefix(params: Seq<(String, Vec<String>)>, name: Seq<char>, n: int)
    requires
        0 <= n <= params.len(),
        param_at(params.take(n), name) is Some,
    ensures
        param_at(params, name) == param_at(params.take(n), name),
    decreases params.len() - n,
{
    if n < params.len() {
        assert(params.take(n + 1).drop_last() =~= params.take(n));
        lemma_param_prefix(params, name, n + 1);
    } else {
        assert(params.take(n) =~= params);
    }
}

impl Params {
    /// The values of the first parameter called `name`.
    pub fn get(&self, name: &str) -> (r: Option<&Vec<String>>)
        ensures
            match r {
                Some(values) => param_at(self.0@, name@) matches Some(i) && *values == self.0@[i].1,
                None => param_at(self.0@, name@) is None,
            },
    {
        let mut i: usize = 0;
        while i < self.0.len()
            invariant
                i <= self.0@.len(),
                param_at(self.0@.take(i as int), name@) is None,
            decreases self.0@.len() - i,
        {
            proof {
                assert(self.0@.take(i + 1).drop_last() =~= self.0@.take(i as int));
                assert(self.0@.take(i + 1).last() == self.0@[i as int]);
            }
            if str_eq(self.0[i].0.as_str(), name) {
                proof {
                    lemma_param_prefix(self.0@, name@, i + 1);
                }
                return Some(&self.0[i].1);
            }
            i += 1;
        }
        proof {
            assert(self.0@.take(i as int) =~= self.0@);
        }
        None
    }
}

/// Where a script stands: the instruction to run next, and the loops that
/// surround it, outermost first, each with its beginning and its index.
#[derive(Debug)]
pub struct Cursor {
    pub loop_points: Vec<LoopPoint>,
    pub stack: Stack,
    pub instruction_idx: usize,
}

/// What a step of a script calls for.
#[derive(Debug)]
pub enum Next<'a> {
    /// The script is over.
    End,
    /// The script has moved on; nothing is to be done.
    Moved,
    /// This command is to be run.
    Run(&'a TestCommand),
    /// A loop steps over a parameter that there is none of: its name.
    MissingParam(&'a str),
}

impl Cursor {
    /// The beginning of a script, outside of any loop.
    pub fn new() -> (r: Self)
        ensures
            r.instruction_idx == 0,
            r.loop_points@.len() == 0,
            r.stack.0@.len() == 0,
    {
        Self { loop_points: Vec::new(), stack: Stack(Vec::new()), instruction_idx: 0 }
    }

    /// Takes one step of the script.
    ///
    /// A `BeginFor` enters a loop at its first step; the loop has as many
    /// steps as its parameter has values. A `NextLoop` takes the innermost
    /// loop to its next step and goes back to its beginning, or leaves the
    /// loop after its last step; outside of any loop it ends the script. A
    /// command is handed out to be run. The script is over when the cursor
    /// has passed the last instruction.
    pub fn next<'a>(&mut self, instructions: &'a Vec<Instruction>, params: &Params) -> (r: Next<'a>)
        ensures
            old(self).instruction_idx >= instructions@.len() ==> r is End && *final(self) == *old(
                self,
            ),
            old(self).instruction_idx < instructions@.len() ==> match instructions@[old(
                self,
            ).instruction_idx as int] {
                Instruction::Command(c) => r == Next::Run(&c) && final(self).instruction_idx
                    == old(self).instruction_idx + 1 && final(self).stack == old(self).stack
                    && final(self).loop_points == old(self).loop_points,
                Instruction::BeginFor { id, param } => match param_at(params.0@, param@) {
                    None => r matches Next::MissingParam(name) && name@ == param@ && *final(self)
                        == *old(self),
                    Some(i) => {
                        &&& r is Moved
                        &&& final(self).instruction_idx == old(self).instruction_idx + 1
                        &&& final(self).loop_points@ == old(self).loop_points@.push(
                            LoopPoint {
                                instruction_idx: (old(self).instruction_idx + 1) as usize,
                                count: params.0@[i].1@.len() as usize,
                            },
                        )
                        &&& final(self).stack.0@.len() == old(self).stack.0@.len() + 1
                        &&& final(self).stack.0@.drop_last() == old(self).stack.0@
                        &&& final(self).stack.0@.last().id@ == id@
                        &&& final(self).stack.0@.last().idx == 0
                    },
                },
                Instruction::NextLoop => if old(self).loop_points@.len() == 0 || old(
                    self,
                ).stack.0@.len() == 0 {
                    r is End
                } else {
                    let point = old(self).loop_points@.last();
                    let at = old(self).stack.0@.last();
                    if at.idx + 1 < point.count {
                        &&& r is Moved
                        &&& final(self).instruction_idx == point.instruction_idx
                        &&& final(self).loop_points@ == old(self).loop_points@
                        &&& final(self).stack.0@.len() == old(self).stack.0@.len()
                        &&& final(self).stack.0@.drop_last() == old(self).stack.0@.drop_last()
                        &&& final(self).stack.0@.last().id == at.id
                        &&& final(self).stack.0@.last().idx == at.idx + 1
                    } else {
                        &&& r is Moved
                        &&& final(self).instruction_idx == old(self).instruction_idx + 1
                        &&& final(self).loop_points@ == old(self).loop_points@.drop_last()
                        &&& final(self).stack.0@ == old(self).stack.0@.drop_last()
                    }
                },
            },
    {
        if self.instruction_idx >= instructions.len() {
            return Next::End;
        }
        match &instructions[self.instruction_idx] {
            Instruction::BeginFor { id, param } => {
                let count: usize = match params.get(param.as_str()) {
                    Some(values) => values.len(),
                    None => {
                        return Next::MissingParam(param.as_str());
                    },
                };
                self.instruction_idx += 1;
                self.loop_points.push(LoopPoint { instruction_idx: self.instruction_idx, count });
                let ghost before = self.stack.0@;
                self.stack.0.push(LoopIdx { id: id.clone(), idx: 0 });
                assert(self.stack.0@.drop_last() =~= before);
                Next::Moved
            },
            Instruction::NextLoop => {
                let point = self.loop_points.pop();
                let idx = self.stack.0.pop();
                let (point, mut idx) = match (point, idx) {
                    (Some(point), Some(idx)) => (point, idx),
                    _ => {
                        return Next::End;
                    },
                };
                if idx.idx < usize::MAX && idx.idx + 1 < point.count {
                    idx.idx += 1;
                    self.instruction_idx = point.instruction_idx;
                    let ghost points = self.loop_points@;
                    let ghost loops = self.stack.0@;
                    self.loop_points.push(point);
                    self.stack.0.push(idx);
                    assert(self.loop_points@ =~= old(self).loop_points@);
                    assert(self.stack.0@.drop_last() =~= loops);
                } else {
                    self.instruction_idx += 1;
                }
                Next::Moved
            },
            Instruction::Command(command) => {
                self.instruction_idx += 1;
                Next::Run(command)
            },
        }
    }
}

/// The steps of loops as they are shown: each loop's name with its step in
/// brackets, commas between them.
pub open spec fn steps_text(loops: Seq<LoopIdx>) -> Seq<char>
    decreases loops.len(),
{
    if loops.len() == 0 {
        Seq::empty()
    } else if loops.len() == 1 {
        loops[0].id@ + "("@ + crate::text::decimal(loops[0].idx as int) + ")"@
    } else {
        steps_text(loops.drop_last()) + ", "@ + loops.last().id@ + "("@ + crate::text::decimal(
            loops.last().idx as int,
        ) + ")"@
    }
}

impl ProcessId {
    /// The process as it is shown: the steps of its loops in square
    /// brackets, then its number.
    pub fn label(&self) -> (r: String)
        ensures
            r@ == "["@ + steps_text(self.loop_idx.0@) + "]: "@ + crate::text::decimal(
                self.id as int,
            ),
    {
        let mut out = String::new();
        push_str(&mut out, "[");
        let ghost head = out@;
        let mut i: usize = 0;
        while i < self.loop_idx.0.len()
            invariant
                i <= self.loop_idx.0@.len(),
                out@ == head + steps_text(self.loop_idx.0@.take(i as int)),
            decreases self.loop_idx.0@.len() - i,
        {
            proof {
                let all = self.loop_idx.0@;
                assert(all.take(i + 1).drop_last() =~= all.take(i as int));
                assert(all.take(i + 1).last() == all[i as int]);
                assert(all.take(i + 1)[0] == all[0]);
            }
            if i > 0 {
                push_str(&mut out, ", ");
            }
            let step = u64_to_string(self.loop_idx.0[i].idx as u64);
            push_str(&mut out, self.loop_idx.0[i].id.as_str());
            push_str(&mut out, "(");
            push_str(&mut out, step.as_str());
            push_str(&mut out, ")");
            assert(out@ =~= head + steps_text(self.loop_idx.0@.take(i + 1)));
            i += 1;
        }
        proof {
            assert(self.loop_idx.0@.take(i as int) =~= self.loop_idx.0@);
        }
        let number = u64_to_string(self.id as u64);
        push_str(&mut out, "]: ");
        push_str(&mut out, number.as_str());
        assert(out@ =~= "["@ + steps_text(self.loop_idx.0@) + "]: "@ + crate::text::decimal(
            self.id as int,
        ));
        out
    }
}

} // verus!
