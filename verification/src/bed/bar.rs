//! What the line of a process on the display says, and how it is made to
//! fit the width of the terminal.

use super::process::{is_label, ProcessState};
use crate::text::push_str;
use vstd::prelude::*;
use vstd::string::StringSliceAdditionalSpecFns;
use vstd::utf8::{
    encode_utf8, encode_utf8_valid_utf8, is_char_boundary, is_char_boundary_start_end_of_seq,
    valid_utf8,
};

verus! {

/// The columns that a line spends on what is neither prefix nor message:
/// the spinner and two blanks.
pub const EXTRA_SPACE: usize = 3;

/// The columns left for prefix and message in a terminal of `cols` columns.
pub open spec fn term_cols_of(cols: u16) -> usize {
    if cols >= EXTRA_SPACE {
        (cols - EXTRA_SPACE) as usize
    } else {
        0
    }
}

/// The columns left for prefix and message in a terminal of `cols` columns.
pub fn term_cols(cols: u16) -> (r: usize)
    ensures
        r == term_cols_of(cols),
{
    let cols: usize = cols as usize;
    if cols >= EXTRA_SPACE {
        cols - EXTRA_SPACE
    } else {
        0
    }
}

/// How many bytes the prefix and the message of a line take, and whether
/// the prefix had to be cut to make room.
#[derive(Clone, Copy, Debug, PartialEq, Eq, Structural)]
pub struct BarUsage {
    pub truncated: bool,
    pub prefix: usize,
    pub message: usize,
}

impl Default for BarUsage {
    fn default() -> (r: Self)
        ensures
            r == (BarUsage { truncated: false, prefix: 0, message: 0 }),
    {
        Self { truncated: false, prefix: 0, message: 0 }
    }
}

impl BarUsage {
    /// The usage after a prefix of `prefix_len` bytes has been fitted into
    /// `available` columns beside the message: the prefix is kept whole
    /// where both fit, else it gets what the message leaves.
    pub open spec fn fitted(self, available: usize, prefix_len: usize) -> BarUsage {
        if self.message + prefix_len > available {
            BarUsage {
                truncated: true,
                prefix: if self.message >= available {
                    0
                } else {
                    (available - self.message) as usize
                },
                message: self.message,
            }
        } else {
            BarUsage { truncated: false, prefix: prefix_len, message: self.message }
        }
    }

    /// The usage after a message of `message_len` bytes has been noted.
    pub open spec fn noted(self, message_len: usize) -> BarUsage {
        BarUsage { message: message_len, ..self }
    }

    /// Whether a message of `message_len` bytes calls for the prefix to be
    /// fitted anew: it does where line and prefix no longer fit, and where
    /// a prefix that was cut has room to grow.
    pub open spec fn needs_refresh(self, available: usize, message_len: usize) -> bool {
        message_len + self.prefix > available || (message_len + self.prefix < available
            && self.truncated)
    }

    /// Fits a prefix of `prefix_len` bytes into `available` columns beside
    /// the message, and returns how many bytes of it are kept.
    pub fn update_prefix(&mut self, available: usize, prefix_len: usize) -> (keep: usize)
        ensures
            *final(self) == old(self).fitted(available, prefix_len),
            keep == final(self).prefix,
            keep <= prefix_len,
    {
        let fits: bool = match self.message.checked_add(prefix_len) {
            Some(next_usage) => next_usage <= available,
            None => false,
        };
        if fits {
            self.truncated = false;
            self.prefix = prefix_len;
        } else {
            self.truncated = true;
            if self.message >= available {
                self.prefix = 0;
            } else {
                self.prefix = available - self.message;
            }
        }
        self.prefix
    }

    /// Takes note of a message of `message_len` bytes, and returns whether
    /// the prefix has to be fitted anew.
    pub fn update_message(&mut self, available: usize, message_len: usize) -> (refresh: bool)
        ensures
            *final(self) == old(self).noted(message_len),
            refresh == old(self).needs_refresh(available, message_len),
    {
        self.message = message_len;
        match self.message.checked_add(self.prefix) {
            Some(next_usage) => next_usage > available || (next_usage < available
                && self.truncated),
            None => true,
        }
    }
}

/// The prefix of a line: which streams could not be routed to their files,
/// then the process itself.
pub open spec fn prefix_text(stdout: bool, stderr: bool, ident: Seq<char>) -> Seq<char> {
    (if stdout {
        "!stdout"@
    } else {
        Seq::empty()
    }) + (if stderr {
        (if stdout {
            " "@
        } else {
            Seq::empty()
        }) + "!stderr"@
    } else {
        Seq::empty()
    }) + (if stdout || stderr {
        ": "@
    } else {
        Seq::empty()
    }) + ident
}

/// The prefix of a line: `!stdout` and `!stderr` for each stream that could
/// not be routed to its file and is shown instead, then the process.
pub fn prepare_prefix(stdout: bool, stderr: bool, ident: &str) -> (r: String)
    ensures
        r@ == prefix_text(stdout, stderr, ident@),
{
    let mut prefix = String::new();
    if stdout {
        push_str(&mut prefix, "!stdout");
    }
    if stderr {
        if stdout {
            push_str(&mut prefix, " ");
        }
        push_str(&mut prefix, "!stderr");
    }
    if stdout || stderr {
        push_str(&mut prefix, ": ");
    }
    push_str(&mut prefix, ident);
    assert(prefix@ =~= prefix_text(stdout, stderr, ident@));
    prefix
}

/// The longest part of `bytes` that starts at its beginning, is at most
/// `keep` bytes long and ends between two characters.
pub open spec fn clip_len(bytes: Seq<u8>, keep: int, k: int) -> bool {
    &&& 0 <= k <= keep
    &&& k <= bytes.len()
    &&& is_char_boundary(bytes, k)
    &&& forall|j: int| k < j <= keep && j <= bytes.len() ==> !is_char_boundary(bytes, j)
}

/// Whether `text` is the beginning of the text that `bytes` spell, as many
/// whole characters of it as fit in `keep` bytes.
pub open spec fn is_clip(bytes: Seq<u8>, keep: int, text: Seq<char>) -> bool {
    &&& clip_len(bytes, keep, encode_utf8(text).len() as int)
    &&& encode_utf8(text) == bytes.subrange(0, encode_utf8(text).len() as int)
}

/// The beginning of `s`, as many whole characters as fit in `keep` bytes.
pub fn clipped(s: &str, keep: usize) -> (r: &str)
    ensures
        r.spec_bytes().len() <= keep,
        clip_len(s.spec_bytes(), keep as int, r.spec_bytes().len() as int),
        r.spec_bytes() == s.spec_bytes().subrange(0, r.spec_bytes().len() as int),
{
    broadcast use encode_utf8_valid_utf8, is_char_boundary_start_end_of_seq;

    let len: usize = s.as_bytes().len();
    let top: usize = if keep < len {
        keep
    } else {
        len
    };
    let mut k: usize = top;
    assert(valid_utf8(s.spec_bytes()));
    assert(is_char_boundary(s.spec_bytes(), 0));
    while !s.is_char_boundary(k)
        invariant
            k <= top,
            top <= keep,
            top == if keep < s.spec_bytes().len() {
                keep as int
            } else {
                s.spec_bytes().len() as int
            },
            is_char_boundary(s.spec_bytes(), 0),
            forall|j: int| k < j <= top ==> !is_char_boundary(s.spec_bytes(), j),
        decreases k,
    {
        k -= 1;
    }
    let (head, _) = s.split_at(k);
    head
}

/// What a line on the display is to show after something has changed.
#[derive(Debug)]
pub struct BarUpdate {
    /// The message to show, where there is a new one.
    pub message: Option<String>,
    /// The prefix to show, where it had to be fitted anew.
    pub prefix: Option<String>,
    /// Whether the process is over and the line is to be finished.
    pub finished: bool,
}

/// The line of one process on the display: what it is called, which of its
/// streams are shown against their routing, how much room it takes and
/// where the process stands.
#[derive(Debug)]
pub struct ProcessBar {
    pub ident: String,
    pub stdout: bool,
    pub stderr: bool,
    pub usage: BarUsage,
    pub status: ProcessState,
}

impl ProcessBar {
    /// The line of a process that runs and has shown nothing yet.
    pub fn new(ident: String) -> (r: Self)
        ensures
            r.ident == ident,
            !r.stdout,
            !r.stderr,
            r.usage == (BarUsage { truncated: false, prefix: 0, message: 0 }),
            r.status is Running,
    {
        Self {
            ident,
            stdout: false,
            stderr: false,
            usage: BarUsage::default(),
            status: ProcessState::Running,
        }
    }

    /// The columns that a line spends besides prefix and message.
    pub fn extra_space(&self) -> (r: usize)
        ensures
            r == EXTRA_SPACE,
    {
        EXTRA_SPACE
    }

    /// Notes whether the standard output is shown against its routing.
    pub fn set_stdout(&mut self, value: bool)
        ensures
            final(self).stdout == value,
            final(self).ident == old(self).ident,
            final(self).stderr == old(self).stderr,
            final(self).usage == old(self).usage,
            final(self).status == old(self).status,
    {
        self.stdout = value;
    }

    /// Notes whether the standard error is shown against its routing.
    pub fn set_stderr(&mut self, value: bool)
        ensures
            final(self).stderr == value,
            final(self).ident == old(self).ident,
            final(self).stdout == old(self).stdout,
            final(self).usage == old(self).usage,
            final(self).status == old(self).status,
    {
        self.stderr = value;
    }

    /// The bytes of the whole prefix of the line.
    pub open spec fn prefix_bytes(&self) -> Seq<u8> {
        encode_utf8(prefix_text(self.stdout, self.stderr, self.ident@))
    }

    /// The usage after a message of `message_len` bytes has been shown in a
    /// terminal of `cols` columns: the message is noted, and the prefix is
    /// fitted anew where the message calls for it.
    pub open spec fn usage_after(&self, cols: u16, message_len: usize) -> BarUsage {
        if self.usage.needs_refresh(term_cols_of(cols), message_len) {
            self.usage.noted(message_len).fitted(
                term_cols_of(cols),
                self.prefix_bytes().len() as usize,
            )
        } else {
            self.usage.noted(message_len)
        }
    }

    /// The whole prefix of the line.
    pub fn prepare_prefix(&self) -> (r: String)
        ensures
            r@ == prefix_text(self.stdout, self.stderr, self.ident@),
    {
        prepare_prefix(self.stdout, self.stderr, self.ident.as_str())
    }

    /// Fits the prefix into a terminal of `cols` columns, and returns it as
    /// it is to be shown: whole, or cut after the last character that fits.
    pub fn refresh_prefix(&mut self, cols: u16) -> (r: String)
        ensures
            final(self).usage == old(self).usage.fitted(
                term_cols_of(cols),
                old(self).prefix_bytes().len() as usize,
            ),
            final(self).ident == old(self).ident,
            final(self).stdout == old(self).stdout,
            final(self).stderr == old(self).stderr,
            final(self).status == old(self).status,
            is_clip(old(self).prefix_bytes(), final(self).usage.prefix as int, r@),
    {
        let available = term_cols(cols);
        let prefix = self.prepare_prefix();
        let keep = self.usage.update_prefix(available, prefix.as_str().len());
        clipped(prefix.as_str(), keep).to_owned()
    }
}

impl ProcessBar {
    /// Takes note of a message of the process. A process that is over
    /// shows its last state and takes no message; for one that runs the
    /// message is shown, and the prefix too where it has to be fitted anew.
    pub fn set_message(&mut self, cols: u16, msg: String) -> (r: BarUpdate)
        ensures
            !r.finished,
            final(self).ident == old(self).ident,
            final(self).stdout == old(self).stdout,
            final(self).stderr == old(self).stderr,
            final(self).status == old(self).status,
            !(old(self).status is Running) ==> r.message is None && r.prefix is None
                && final(self).usage == old(self).usage,
            old(self).status is Running ==> {
                &&& r.message == Some(msg)
                &&& r.prefix is Some <==> old(self).usage.needs_refresh(
                    term_cols_of(cols),
                    encode_utf8(msg@).len() as usize,
                )
                &&& final(self).usage == old(self).usage_after(
                    cols,
                    encode_utf8(msg@).len() as usize,
                )
                &&& r.prefix is Some ==> is_clip(
                    old(self).prefix_bytes(),
                    final(self).usage.prefix as int,
                    r.prefix->0@,
                )
            },
    {
        match &self.status {
            ProcessState::Running => {},
            _ => {
                return BarUpdate { message: None, prefix: None, finished: false };
            },
        }
        let available = term_cols(cols);
        let refresh = self.usage.update_message(available, msg.as_str().as_bytes().len());
        let prefix = if refresh {
            Some(self.refresh_prefix(cols))
        } else {
            None
        };
        BarUpdate { message: Some(msg), prefix, finished: false }
    }

    /// Moves the process to `state`, once: a process that runs moves to any
    /// state but running, and the line is then finished with the name of
    /// that state for its message. A process that is over stays as it is.
    pub fn set_state(&mut self, cols: u16, state: ProcessState) -> (r: BarUpdate)
        ensures
            final(self).ident == old(self).ident,
            final(self).stdout == old(self).stdout,
            final(self).stderr == old(self).stderr,
            r.finished == (old(self).status is Running && !(state is Running)),
            r.finished ==> {
                &&& final(self).status == state
                &&& r.message is Some
                &&& is_label(state, r.message->0@)
                &&& r.prefix is Some <==> old(self).usage.needs_refresh(
                    term_cols_of(cols),
                    encode_utf8(r.message->0@).len() as usize,
                )
                &&& final(self).usage == old(self).usage_after(
                    cols,
                    encode_utf8(r.message->0@).len() as usize,
                )
                &&& r.prefix is Some ==> is_clip(
                    old(self).prefix_bytes(),
                    final(self).usage.prefix as int,
                    r.prefix->0@,
                )
            },
            !r.finished ==> final(self).status == old(self).status && final(self).usage == old(
                self,
            ).usage && r.message is None && r.prefix is None,
    {
        let runs: bool = match &self.status {
            ProcessState::Running => true,
            _ => false,
        };
        let stays: bool = match &state {
            ProcessState::Running => true,
            _ => false,
        };
        if !runs || stays {
            return BarUpdate { message: None, prefix: None, finished: false };
        }
        let message = state.label();
        self.status.set_state(state);
        let available = term_cols(cols);
        let refresh = self.usage.update_message(available, message.as_str().as_bytes().len());
        let prefix = if refresh {
            Some(self.refresh_prefix(cols))
        } else {
            None
        };
        BarUpdate { message: Some(message), prefix, finished: true }
    }
}

} // verus!
