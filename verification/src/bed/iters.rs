//! What is shown of the loops of a running program.

use crate::program::ids::VarNameId;
use crate::program::names::VarNames;
use crate::program::object::{lemma_list_view, lemma_struct_view, Object, Value};
use crate::text::{decimal, i64_to_string, push_str, u64_to_string};
use vstd::prelude::*;

verus! {

/// Splits a number of seconds into seconds, minutes and hours, in that
/// order: the seconds and minutes below sixty, the hours whatever is left.
pub fn seconds_to_smh(seconds: u64) -> (r: (u64, u64, u64))
    ensures
        r.0 == seconds % 60,
        r.1 == (seconds / 60) % 60,
        r.2 == seconds / 3600,
        r.0 + 60 * r.1 + 3600 * r.2 == seconds,
{
    let minutes: u64 = seconds / 60;
    let hours: u64 = minutes / 60;
    let seconds: u64 = seconds % 60;
    let minutes: u64 = minutes % 60;
    (seconds, minutes, hours)
}

/// A span of `seconds` seconds as it is written in a summary.
pub open spec fn span_text(seconds: u64) -> Seq<char> {
    decimal((seconds / 3600) as int) + "h:"@ + decimal(((seconds / 60) % 60) as int) + "m:"@
        + decimal((seconds % 60) as int) + "s"@
}

/// The summary of one loop.
pub open spec fn summary_text(
    name: Seq<char>,
    pos: u64,
    len: u64,
    eta: u64,
    elapsed: u64,
    message: Seq<char>,
) -> Seq<char> {
    "["@ + name + " = "@ + decimal(pos as int) + " / "@ + decimal(len as int) + "] : Eta "@
        + span_text(eta) + " : Elapsed "@ + span_text(elapsed) + " : "@ + message
}

/// Appends a span of `seconds` seconds to `out`.
fn push_span(out: &mut String, seconds: u64)
    ensures
        final(out)@ == old(out)@ + span_text(seconds),
{
    let (s, m, h) = seconds_to_smh(seconds);
    let hours = u64_to_string(h);
    let minutes = u64_to_string(m);
    let secs = u64_to_string(s);
    push_str(out, hours.as_str());
    push_str(out, "h:");
    push_str(out, minutes.as_str());
    push_str(out, "m:");
    push_str(out, secs.as_str());
    push_str(out, "s");
    assert(out@ =~= old(out)@ + span_text(seconds));
}

/// The summary of one loop: its variable, how far it is, how long it is
/// expected to take and has taken, in seconds, and its last message.
pub fn write_summary(name: &str, pos: u64, len: u64, eta: u64, elapsed: u64, message: &str) -> (r:
    String)
    ensures
        r@ == summary_text(name@, pos, len, eta, elapsed, message@),
{
    let mut out = String::new();
    let pos_text = u64_to_string(pos);
    let len_text = u64_to_string(len);
    push_str(&mut out, "[");
    push_str(&mut out, name);
    push_str(&mut out, " = ");
    push_str(&mut out, pos_text.as_str());
    push_str(&mut out, " / ");
    push_str(&mut out, len_text.as_str());
    push_str(&mut out, "] : Eta ");
    push_span(&mut out, eta);
    push_str(&mut out, " : Elapsed ");
    push_span(&mut out, elapsed);
    push_str(&mut out, " : ");
    push_str(&mut out, message);
    assert(out@ =~= summary_text(name@, pos, len, eta, elapsed, message@));
    out
}

/// The report of all loops: one line for each summary, and blanks after
/// them as far as the report before was longer, so that it is written over
/// in full.
pub open spec fn report_bytes(lines: Seq<Seq<u8>>, previous_len: nat) -> Seq<u8> {
    let text = joined_lines(lines);
    if text.len() < previous_len {
        text + Seq::new((previous_len - text.len()) as nat, |i: int| 32u8)
    } else {
        text
    }
}

/// Each of `lines` with a line feed after it, one after the other.
pub open spec fn joined_lines(lines: Seq<Seq<u8>>) -> Seq<u8>
    decreases lines.len(),
{
    if lines.len() == 0 {
        Seq::empty()
    } else {
        joined_lines(lines.drop_last()) + lines.last() + seq![10u8]
    }
}

/// What a vector of byte vectors holds.
pub open spec fn lines_view(v: Seq<Vec<u8>>) -> Seq<Seq<u8>> {
    Seq::new(v.len(), |i: int| v[i]@)
}

/// The bytes of the report of all loops, to be written over a report of
/// `previous_len` bytes.
pub fn write_progress(lines: &Vec<Vec<u8>>, previous_len: usize) -> (r: Vec<u8>)
    ensures
        r@ == report_bytes(lines_view(lines@), previous_len as nat),
{
    let mut out: Vec<u8> = Vec::new();
    let mut i: usize = 0;
    while i < lines.len()
        invariant
            i <= lines.len(),
            out@ == joined_lines(lines_view(lines@).take(i as int)),
        decreases lines.len() - i,
    {
        proof {
            let all = lines_view(lines@);
            assert(all.take(i + 1).drop_last() =~= all.take(i as int));
            assert(all.take(i + 1).last() == lines@[i as int]@);
        }
        let ghost before = out@;
        let line = &lines[i];
        let mut j: usize = 0;
        while j < line.len()
            invariant
                j <= line.len(),
                out@ == before + line@.take(j as int),
            decreases line.len() - j,
        {
            out.push(line[j]);
            assert(out@ =~= before + line@.take(j + 1));
            j += 1;
        }
        proof {
            assert(line@.take(j as int) =~= line@);
        }
        out.push(10);
        i += 1;
    }
    proof {
        assert(lines_view(lines@).take(i as int) =~= lines_view(lines@));
    }
    let ghost text = out@;
    while out.len() < previous_len
        invariant
            text.len() <= out@.len(),
            out@.len() <= previous_len || out@ == text,
            out@ == text + Seq::new((out@.len() - text.len()) as nat, |i: int| 32u8),
        decreases previous_len - out.len(),
    {
        let ghost before = out@;
        out.push(32);
        assert(out@ =~= text + Seq::new((out@.len() - text.len()) as nat, |i: int| 32u8));
    }
    proof {
        if text.len() >= previous_len {
            assert(out@ =~= text);
        }
    }
    out
}

/// The number of steps of a loop as it is shown: the length of a list or of
/// a counter's range; nothing else has steps.
pub open spec fn shown_len(v: Value) -> u64 {
    match v {
        Value::Counter(c) => c.length() as u64,
        Value::List(l) => l.len() as u64,
        _ => 0,
    }
}

/// The message of a loop at step `idx`: the base of the struct that is
/// stepped over or of the struct at that step of a list, or the number that
/// a counter stands at. Anything else has no message.
pub open spec fn shown_message(v: Value, idx: usize) -> Option<Seq<char>> {
    match v {
        Value::Struct(rec) => Some(rec.base),
        Value::List(l) => if idx < l.len() && l[idx as int] is Struct {
            Some(l[idx as int]->Struct_0.base)
        } else {
            None
        },
        Value::Counter(c) => Some(decimal(c.position() as int)),
        Value::Ref(_) => None,
    }
}

/// The number of steps of a loop over `var`, as it is shown.
pub fn iter_len(var: &Object) -> (r: u64)
    ensures
        r == shown_len(var@),
{
    match var {
        Object::Counter(counter) => counter.len() as u64,
        Object::List(vec) => {
            proof {
                lemma_list_view(*vec);
            }
            vec.len() as u64
        },
        _ => 0,
    }
}

/// The message of a loop over `var` at step `idx`, if it has one.
pub fn iter_message(var: &Object, idx: usize) -> (r: Option<String>)
    ensures
        match r {
            Some(m) => shown_message(var@, idx) == Some(m@),
            None => shown_message(var@, idx) is None,
        },
{
    match var {
        Object::Struct(value) => {
            proof {
                lemma_struct_view(*value);
            }
            Some(value.base.clone())
        },
        Object::List(list) => {
            proof {
                lemma_list_view(*list);
            }
            if idx < list.len() {
                match &list[idx] {
                    Object::Struct(value) => {
                        proof {
                            lemma_struct_view(*value);
                        }
                        Some(value.base.clone())
                    },
                    _ => None,
                }
            } else {
                None
            }
        },
        Object::Counter(counter) => Some(i64_to_string(counter.idx())),
        Object::Ref(_) => None,
    }
}

/// What a loop shows next: the step it is at and its message.
#[derive(Debug)]
pub struct IterProgress {
    pub next_idx: u64,
    pub next_message: String,
}

/// How the bar of a loop is to be moved.
#[derive(Clone, Copy, Debug, PartialEq, Eq, Structural)]
pub enum BarMove {
    /// Back to the start, the clock too.
    Reset,
    /// To this position.
    Position(u64),
}

impl IterProgress {
    /// A loop at its first step, without a message.
    pub fn new() -> (r: Self)
        ensures
            r.next_idx == 0,
            r.next_message@ == Seq::<char>::empty(),
    {
        Self { next_idx: 0, next_message: String::new() }
    }

    /// Notes the step that the loop is at.
    pub fn set(&mut self, value: u64)
        ensures
            final(self).next_idx == value,
            final(self).next_message == old(self).next_message,
    {
        self.next_idx = value;
    }

    /// Notes the message of the loop.
    pub fn set_message(&mut self, message: &str)
        ensures
            final(self).next_idx == old(self).next_idx,
            final(self).next_message@ == message@,
    {
        self.next_message = message.to_owned();
    }

    /// How the bar is to be moved to show what was noted: back to the start
    /// for the first step, else to the step.
    pub fn update(&self) -> (r: BarMove)
        ensures
            r == if self.next_idx == 0 {
                BarMove::Reset
            } else {
                BarMove::Position(self.next_idx)
            },
    {
        if self.next_idx == 0 {
            BarMove::Reset
        } else {
            BarMove::Position(self.next_idx)
        }
    }
}

/// The loops that are shown, each under the number of its variable, in the
/// order in which they were first seen.
#[derive(Debug)]
pub struct IterTable {
    pub iters: Vec<(VarNameId, IterProgress)>,
}

/// The position of the first entry for `var`.
pub open spec fn entry_of(iters: Seq<(VarNameId, IterProgress)>, var: VarNameId) -> Option<int>
    decreases iters.len(),
{
    if iters.len() == 0 {
        None
    } else {
        match entry_of(iters.drop_last(), var) {
            Some(i) => Some(i),
            None => if iters.last().0 == var {
                Some(iters.len() - 1)
            } else {
                None
            },
        }
    }
}

/// A bar that has to be made for a loop that is seen for the first time.
#[derive(Debug)]
pub struct NewBar {
    pub name: String,
    pub len: u64,
}

impl IterTable {
    /// A table without loops.
    pub fn new() -> (r: Self)
        ensures
            r.iters@.len() == 0,
    {
        Self { iters: Vec::new() }
    }

    /// The position of the entry for `var`, if there is one.
    pub fn find(&self, var: VarNameId) -> (r: Option<usize>)
        ensures
            match r {
                Some(i) => entry_of(self.iters@, var) == Some(i as int) && i < self.iters@.len()
                    && self.iters@[i as int].0 == var,
                None => entry_of(self.iters@, var) is None,
            },
    {
        let mut i: usize = 0;
        while i < self.iters.len()
            invariant
                i <= self.iters.len(),
                entry_of(self.iters@.take(i as int), var) is None,
            decreases self.iters.len() - i,
        {
            proof {
                assert(self.iters@.take(i + 1).drop_last() =~= self.iters@.take(i as int));
                assert(self.iters@.take(i + 1).last() == self.iters@[i as int]);
            }
            if self.iters[i].0.0 == var.0 {
                proof {
                    lemma_entry_prefix(self.iters@, var, i + 1);
                }
                return Some(i);
            }
            i += 1;
        }
        proof {
            assert(self.iters@.take(i as int) =~= self.iters@);
        }
        None
    }

    /// Takes note of a step of the loop of `iter_var` over `var`: the step
    /// and its message are noted in the entry of the loop, which is made
    /// where the loop is seen for the first time. What is returned then is
    /// the bar to make for it: its name, or `Unknown` where the variable
    /// has none, and its length.
    pub fn set_iter(&mut self, names: &VarNames, iter_var: VarNameId, idx: usize, var: &Object) -> (r:
        (usize, Option<NewBar>))
        ensures
            r.0 < final(self).iters@.len(),
            final(self).iters@[r.0 as int].0 == iter_var,
            final(self).iters@[r.0 as int].1.next_idx == idx as u64,
            match shown_message(var@, idx) {
                Some(m) => final(self).iters@[r.0 as int].1.next_message@ == m,
                None => true,
            },
            match entry_of(old(self).iters@, iter_var) {
                Some(i) => r.0 == i && r.1 is None && final(self).iters@.len() == old(
                    self,
                ).iters@.len(),
                None => {
                    &&& r.0 == old(self).iters@.len()
                    &&& final(self).iters@.len() == old(self).iters@.len() + 1
                    &&& r.1 is Some
                    &&& r.1->0.len == shown_len(var@)
                    &&& r.1->0.name@ == (if iter_var.0 < names@.len() {
                        names@[iter_var.0 as int]
                    } else {
                        "Unknown"@
                    })
                },
            },
            forall|j: int|
                0 <= j < old(self).iters@.len() && j != r.0 ==> final(self).iters@[j] == old(
                    self,
                ).iters@[j],
    {
        let (at, made): (usize, Option<NewBar>) = match self.find(iter_var) {
            Some(at) => (at, None),
            None => {
                let name = match names.evaluate(iter_var) {
                    Some(name) => name.to_owned(),
                    None => "Unknown".to_owned(),
                };
                let len = iter_len(var);
                self.iters.push((iter_var, IterProgress::new()));
                (self.iters.len() - 1, Some(NewBar { name, len }))
            },
        };
        let message = iter_message(var, idx);
        let mut entry = IterProgress::new();
        entry.set(idx as u64);
        match message {
            Some(m) => {
                entry.set_message(m.as_str());
            },
            None => {
                entry.next_message = self.iters[at].1.next_message.clone();
            },
        }
        self.iters.set(at, (iter_var, entry));
        (at, made)
    }
}

/// A match found in a prefix of the table is the match found in the whole.
pub proof fn lemma_entry_prefix(iters: Seq<(VarNameId, IterProgress)>, var: VarNameId, n: int)
    requires
        0 <= n <= iters.len(),
        entry_of(iters.take(n), var) is Some,
    ensures
        entry_of(iters, var) == entry_of(iters.take(n), var),
    decreases iters.len() - n,
{
    if n < iters.len() {
        assert(iters.take(n + 1).drop_last() =~= iters.take(n));
        lemma_entry_prefix(iters, var, n + 1);
    } else {
        assert(iters.take(n) =~= iters);
    }
}

} // verus!
