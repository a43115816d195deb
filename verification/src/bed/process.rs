//! What is known of a process before it runs and while it runs.

use super::commands::OutputMap;
use crate::text::{decimal, i64_to_string, push_str};
use vstd::prelude::*;
use vstd::string::StrSliceExecFns;

verus! {

/// A process to run: the program, its arguments, where its output goes and
/// where it runs.
#[derive(Debug)]
pub struct ProcessInfo {
    pub command: String,
    pub args: Vec<String>,
    pub stdout: OutputMap<String>,
    pub stderr: OutputMap<String>,
    pub working_dir: Option<String>,
}

/// What a [`ProcessInfo`] holds.
pub struct Launch {
    pub command: Seq<char>,
    pub args: Seq<Seq<char>>,
    pub stdout: OutputMap<Seq<char>>,
    pub stderr: OutputMap<Seq<char>>,
    pub working_dir: Option<Seq<char>>,
}

/// What a routing to a path holds.
pub open spec fn route_view(out: OutputMap<String>) -> OutputMap<Seq<char>> {
    match out {
        OutputMap::Print => OutputMap::Print,
        OutputMap::Create(p) => OutputMap::Create(p@),
        OutputMap::Append(p) => OutputMap::Append(p@),
    }
}

/// What a vector of strings holds.
pub open spec fn texts(v: Seq<String>) -> Seq<Seq<char>> {
    Seq::new(v.len(), |i: int| v[i]@)
}

impl View for ProcessInfo {
    type V = Launch;

    open spec fn view(&self) -> Launch {
        Launch {
            command: self.command@,
            args: texts(self.args@),
            stdout: route_view(self.stdout),
            stderr: route_view(self.stderr),
            working_dir: match self.working_dir {
                Some(d) => Some(d@),
                None => None,
            },
        }
    }
}

impl ProcessInfo {
    /// A process that runs `command` without arguments, in the directory of
    /// its parent, with both streams on the display.
    pub fn new(command: String) -> (r: Self)
        ensures
            r@ == (Launch {
                command: command@,
                args: Seq::empty(),
                stdout: OutputMap::Print,
                stderr: OutputMap::Print,
                working_dir: None,
            }),
    {
        let r = Self {
            command,
            args: Vec::new(),
            stdout: OutputMap::Print,
            stderr: OutputMap::Print,
            working_dir: None,
        };
        assert(texts(r.args@) =~= Seq::empty());
        r
    }

    /// Appends `args` to the arguments.
    pub fn add_args(&mut self, args: Vec<String>)
        ensures
            final(self)@ == (Launch { args: old(self)@.args + texts(args@), ..old(self)@ }),
    {
        let mut args = args;
        let ghost added = args@;
        self.args.append(&mut args);
        assert(texts(self.args@) =~= old(self)@.args + texts(added));
    }

    /// Routes the standard output.
    pub fn set_stdout(&mut self, out: OutputMap<String>)
        ensures
            final(self)@ == (Launch { stdout: route_view(out), ..old(self)@ }),
    {
        self.stdout = out;
    }

    /// Routes the standard error.
    pub fn set_stderr(&mut self, out: OutputMap<String>)
        ensures
            final(self)@ == (Launch { stderr: route_view(out), ..old(self)@ }),
    {
        self.stderr = out;
    }

    /// Sets the directory to run in.
    pub fn set_working_dir(&mut self, dir: String)
        ensures
            final(self)@ == (Launch { working_dir: Some(dir@), ..old(self)@ }),
    {
        self.working_dir = Some(dir);
    }
}

/// `std::io::Error`: what the system says of a call that failed. Nothing is
/// known of what is inside it.
#[verifier::external_type_specification]
#[verifier::external_body]
pub struct ExIoError(std::io::Error);

/// Where a process stands in its life. A process starts out running, and
/// leaves that state once, for one of the others.
#[derive(Debug)]
pub enum ProcessState {
    Running,
    Killed,
    Error(std::io::Error),
    Failed(Option<i32>),
    Finished,
}

/// What polling a process without waiting for it found.
#[derive(Debug)]
pub enum Poll {
    /// The process has exited, with success or not, and with this code.
    Exited { success: bool, code: Option<i32> },
    /// The process still runs.
    Pending,
    /// The system could not tell.
    Failed(std::io::Error),
}

/// `<io::Error as Debug>::fmt`: the error as the system describes it.
#[verifier::external_body]
fn io_error_text(e: &std::io::Error) -> String {
    format!("{:?}", e)
}

/// The text that stands for an exit code.
pub open spec fn code_text(code: Option<i32>) -> Seq<char> {
    match code {
        Some(c) => "Some("@ + decimal(c as int) + ")"@,
        None => "None"@,
    }
}

/// Whether `text` is the name of the state as it is shown: the state's
/// name, with the exit code of a failure in brackets behind it. Of an error
/// the words in the brackets are the system's.
pub open spec fn is_label(state: ProcessState, text: Seq<char>) -> bool {
    match state {
        ProcessState::Running => text == "Running"@,
        ProcessState::Killed => text == "Killed"@,
        ProcessState::Finished => text == "Finished"@,
        ProcessState::Failed(code) => text == "Failed("@ + code_text(code) + ")"@,
        ProcessState::Error(_) => text.len() >= 7 && text.take(6) == "Error("@ && text.last() == ')',
    }
}

impl ProcessState {
    /// The state that an exit leads to: finished on success, else failed
    /// with the exit code.
    pub fn from_exit(success: bool, code: Option<i32>) -> (r: Self)
        ensures
            success ==> r is Finished,
            !success ==> r == ProcessState::Failed(code),
    {
        if success {
            ProcessState::Finished
        } else {
            ProcessState::Failed(code)
        }
    }

    /// Moves to `state`, once: a process that runs moves to any state but
    /// running, and a process that has left running stays where it is.
    /// Returns whether the state changed.
    pub fn set_state(&mut self, state: ProcessState) -> (changed: bool)
        ensures
            changed == (*old(self) is Running && !(state is Running)),
            changed ==> *final(self) == state,
            !changed ==> *final(self) == *old(self),
    {
        let runs: bool = match self {
            ProcessState::Running => true,
            _ => false,
        };
        let stays: bool = match &state {
            ProcessState::Running => true,
            _ => false,
        };
        if runs && !stays {
            *self = state;
            true
        } else {
            false
        }
    }

    /// Takes note of a poll, and returns whether the process is known to
    /// be over: an exit finishes it or fails it, a poll that the system
    /// could not answer leaves it in error, and a process that still runs
    /// stays as it is.
    pub fn after_poll(&mut self, poll: Poll) -> (done: bool)
        ensures
            done == !(poll is Pending),
            match poll {
                Poll::Pending => *final(self) == *old(self),
                Poll::Exited { success, code } => if *old(self) is Running {
                    if success {
                        *final(self) is Finished
                    } else {
                        *final(self) == ProcessState::Failed(code)
                    }
                } else {
                    *final(self) == *old(self)
                },
                Poll::Failed(e) => if *old(self) is Running {
                    *final(self) == ProcessState::Error(e)
                } else {
                    *final(self) == *old(self)
                },
            },
    {
        match poll {
            Poll::Pending => false,
            Poll::Exited { success, code } => {
                self.set_state(ProcessState::from_exit(success, code));
                true
            },
            Poll::Failed(e) => {
                self.set_state(ProcessState::Error(e));
                true
            },
        }
    }

    /// Takes note of how killing the process went: a process that ran is
    /// killed, or in error where the system refused.
    pub fn after_kill(&mut self, result: Result<(), std::io::Error>)
        ensures
            match result {
                Ok(()) => if *old(self) is Running {
                    *final(self) is Killed
                } else {
                    *final(self) == *old(self)
                },
                Err(e) => if *old(self) is Running {
                    *final(self) == ProcessState::Error(e)
                } else {
                    *final(self) == *old(self)
                },
            },
    {
        match result {
            Ok(()) => {
                self.set_state(ProcessState::Killed);
            },
            Err(e) => {
                self.set_state(ProcessState::Error(e));
            },
        }
    }

    /// The name of the state as it is shown: the state's name, with the
    /// exit code of a failure and the system's words for an error in
    /// brackets behind it.
    pub fn label(&self) -> (r: String)
        ensures
            is_label(*self, r@),
    {
        let mut out = String::new();
        match self {
            ProcessState::Running => {
                push_str(&mut out, "Running");
                assert(out@ =~= "Running"@);
            },
            ProcessState::Killed => {
                push_str(&mut out, "Killed");
                assert(out@ =~= "Killed"@);
            },
            ProcessState::Finished => {
                push_str(&mut out, "Finished");
                assert(out@ =~= "Finished"@);
            },
            ProcessState::Failed(code) => {
                push_str(&mut out, "Failed(");
                match code {
                    Some(c) => {
                        push_str(&mut out, "Some(");
                        let digits = i64_to_string(*c as i64);
                        push_str(&mut out, digits.as_str());
                        push_str(&mut out, ")");
                    },
                    None => {
                        push_str(&mut out, "None");
                    },
                }
                push_str(&mut out, ")");
                assert(out@ =~= "Failed("@ + code_text(*code) + ")"@);
            },
            ProcessState::Error(e) => {
                push_str(&mut out, "Error(");
                let words = io_error_text(e);
                push_str(&mut out, words.as_str());
                push_str(&mut out, ")");
                proof {
                    reveal_strlit("Error(");
                    reveal_strlit(")");
                    assert(out@.take(6) =~= "Error("@);
                }
            },
        }
        out
    }
}

/// Whether `c` parts the components of a path.
pub open spec fn is_separator(c: char) -> bool {
    c == '/' || c == '\\'
}

/// What follows the last separator of `path`; all of it where it has none.
pub open spec fn last_component(path: Seq<char>) -> Seq<char>
    decreases path.len(),
{
    if path.len() == 0 || is_separator(path.last()) {
        Seq::empty()
    } else {
        last_component(path.drop_last()).push(path.last())
    }
}

/// Each of `args` with a blank before it, one after the other.
pub open spec fn spaced(args: Seq<Seq<char>>) -> Seq<char>
    decreases args.len(),
{
    if args.len() == 0 {
        Seq::empty()
    } else {
        spaced(args.drop_last()) + seq![' '] + args.last()
    }
}

/// The start of the last component of `path`.
fn component_start(path: &str) -> (start: usize)
    ensures
        start <= path@.len(),
        last_component(path@) == path@.subrange(start as int, path@.len() as int),
{
    let total: usize = path.unicode_len();
    let mut start: usize = 0;
    let mut i: usize = 0;
    for c in it: path.chars()
        invariant
            total == path@.len(),
            it.seq() == path@,
            i == it.index(),
            start <= i,
            last_component(path@.take(i as int)) == path@.subrange(start as int, i as int),
    {
        proof {
            assert(path@.take(i + 1).drop_last() =~= path@.take(i as int));
            assert(path@.take(i + 1).last() == c);
        }
        if c == '/' || c == '\\' {
            start = i + 1;
            assert(path@.subrange(start as int, i + 1) =~= Seq::<char>::empty());
        } else {
            assert(path@.subrange(start as int, i + 1) =~= path@.subrange(
                start as int,
                i as int,
            ).push(c));
        }
        i += 1;
    }
    proof {
        assert(path@.take(i as int) =~= path@);
    }
    start
}

impl ProcessInfo {
    /// What the process is called on the display: the last component of
    /// its command, then its arguments, blanks between them.
    pub fn ident(&self) -> (r: String)
        ensures
            r@ == last_component(self.command@) + spaced(texts(self.args@)),
    {
        let command = self.command.as_str();
        let start = component_start(command);
        let len = command.unicode_len();
        let mut ident = command.substring_char(start, len).to_owned();
        let mut i: usize = 0;
        while i < self.args.len()
            invariant
                i <= self.args.len(),
                ident@ == last_component(self.command@) + spaced(texts(self.args@).take(i as int)),
            decreases self.args.len() - i,
        {
            proof {
                let all = texts(self.args@);
                assert(all.take(i + 1).drop_last() =~= all.take(i as int));
                assert(all.take(i + 1).last() == self.args@[i as int]@);
            }
            let ghost before = ident@;
            push_str(&mut ident, " ");
            push_str(&mut ident, self.args[i].as_str());
            proof {
                reveal_strlit(" ");
                assert(" "@ =~= seq![' ']);
                assert(ident@ =~= last_component(self.command@) + spaced(
                    texts(self.args@).take(i + 1),
                ));
            }
            i += 1;
        }
        proof {
            assert(texts(self.args@).take(i as int) =~= texts(self.args@));
        }
        ident
    }
}

} // verus!
