//! The commands of a test script, one to a line, and how a line is read.
//!
//! A line is `kill N`, `sleep MS`, `wait N [MS SLEEPS]` or
//! `spawn N [--stdout=MAP] [--stderr=MAP] COMMAND ARG...`, the keyword in
//! lower or in upper case. An argument is `[INDEX::PARAM]`, `pid(N)` or any
//! other text without a blank. A map is `print`, `append(ARG)` or an
//! argument that names the file to make.

use crate::text::{parse_u64, parsed_u64, str_eq};
use vstd::prelude::*;
use vstd::string::StrSliceExecFns;

verus! {

/// An argument of a command: a string, the value of a parameter at the
/// step of a loop, or the process number of an earlier command.
#[derive(Clone, Debug, PartialEq)]
pub enum Arg {
    String(String),
    Param { index: usize, param: String },
    Pid(usize),
}

/// A piece of an argument that is put together from text and from the
/// values of parameters: text as it stands, or the value of the parameter
/// `param` at the step of the loop called `index`.
#[derive(Clone, Debug, PartialEq)]
pub enum TemplatedArg {
    Text(String),
    Param { index: String, param: String },
}

/// Where a stream of a process goes.
#[derive(Clone, Debug, PartialEq)]
pub enum OutputMap {
    Print,
    Create(Arg),
    Append(Arg),
}

impl Default for OutputMap {
    fn default() -> (r: Self)
        ensures
            r is Print,
    {
        Self::Print
    }
}

/// A command of a test script.
#[derive(Clone, Debug, PartialEq)]
pub enum TestCommand {
    Kill(usize),
    Spawn { id: usize, command: String, args: Vec<Arg>, stdout: OutputMap, stderr: OutputMap },
    Sleep(u64),
    WaitFor { id: usize, timeout: Option<(u64, u64)> },
}

/// Why a line could not be read: it is not of the language.
#[derive(Clone, Copy, Debug, PartialEq, Eq, Structural)]
pub struct ParseError;

/// What an [`Arg`] holds.
pub enum ArgView {
    String(Seq<char>),
    Param { index: usize, param: Seq<char> },
    Pid(usize),
}

/// What an [`OutputMap`] holds.
pub enum MapView {
    Print,
    Create(ArgView),
    Append(ArgView),
}

/// What a [`TestCommand`] holds.
pub enum CommandView {
    Kill(usize),
    Spawn { id: usize, command: Seq<char>, args: Seq<ArgView>, stdout: MapView, stderr: MapView },
    Sleep(u64),
    WaitFor { id: usize, timeout: Option<(u64, u64)> },
}

impl View for Arg {
    type V = ArgView;

    open spec fn view(&self) -> ArgView {
        match self {
            Arg::String(s) => ArgView::String(s@),
            Arg::Param { index, param } => ArgView::Param { index: *index, param: param@ },
            Arg::Pid(id) => ArgView::Pid(*id),
        }
    }
}

impl View for OutputMap {
    type V = MapView;

    open spec fn view(&self) -> MapView {
        match self {
            OutputMap::Print => MapView::Print,
            OutputMap::Create(a) => MapView::Create(a@),
            OutputMap::Append(a) => MapView::Append(a@),
        }
    }
}

/// What a sequence of arguments holds.
pub open spec fn args_view(args: Seq<Arg>) -> Seq<ArgView> {
    Seq::new(args.len(), |i: int| args[i]@)
}

impl View for TestCommand {
    type V = CommandView;

    open spec fn view(&self) -> CommandView {
        match self {
            TestCommand::Kill(id) => CommandView::Kill(*id),
            TestCommand::Spawn { id, command, args, stdout, stderr } => CommandView::Spawn {
                id: *id,
                command: command@,
                args: args_view(args@),
                stdout: stdout@,
                stderr: stderr@,
            },
            TestCommand::Sleep(ms) => CommandView::Sleep(*ms),
            TestCommand::WaitFor { id, timeout } => CommandView::WaitFor {
                id: *id,
                timeout: *timeout,
            },
        }
    }
}

/// The kinds of characters that the language tells apart.
#[derive(Clone, Copy, Debug, PartialEq, Eq, Structural)]
pub enum Class {
    /// An ASCII digit.
    Digit,
    /// The blank.
    Blank,
    /// Anything but the blank.
    NotBlank,
    /// Anything but this character.
    Not(char),
    /// White space.
    Space,
    /// Anything but white space.
    NotSpace,
}

/// Whether `c` is white space.
pub open spec fn is_space(c: char) -> bool {
    let u = c as u32;
    (9 <= u <= 13) || u == 32 || u == 0x85 || u == 0xA0 || u == 0x1680 || (0x2000 <= u <= 0x200A)
        || u == 0x2028 || u == 0x2029 || u == 0x202F || u == 0x205F || u == 0x3000
}

/// Whether `c` is of the class `k`.
pub open spec fn in_class(k: Class, c: char) -> bool {
    match k {
        Class::Digit => 48 <= c as u32 <= 57,
        Class::Blank => c == ' ',
        Class::NotBlank => c != ' ',
        Class::Not(x) => c != x,
        Class::Space => is_space(c),
        Class::NotSpace => !is_space(c),
    }
}

/// Where the run of characters of the class `k` ends that begins at `i`.
pub open spec fn run_end(s: Seq<char>, i: int, k: Class) -> int
    decreases s.len() - i,
{
    if 0 <= i < s.len() && in_class(k, s[i]) {
        run_end(s, i + 1, k)
    } else {
        i
    }
}

/// Whether `tag` stands in `s` at `i`.
pub open spec fn starts_with(s: Seq<char>, i: int, tag: Seq<char>) -> bool {
    0 <= i && i + tag.len() <= s.len() && s.subrange(i, i + tag.len()) == tag
}

/// The number that stands in `s` at `i`, and where it ends: one digit at
/// least, the value below two to the sixty-fourth.
pub open spec fn number_at(s: Seq<char>, i: int) -> Option<(u64, int)> {
    let e = run_end(s, i, Class::Digit);
    if e > i {
        match parsed_u64(s.subrange(i, e)) {
            Some(v) => Some((v, e)),
            None => None,
        }
    } else {
        None
    }
}

/// The number of a process or of a parameter that stands in `s` at `i`.
pub open spec fn index_at(s: Seq<char>, i: int) -> Option<(usize, int)> {
    match number_at(s, i) {
        Some((v, e)) => if v <= usize::MAX {
            Some((v as usize, e))
        } else {
            None
        },
        None => None,
    }
}

/// `s` without the white space at its end.
pub open spec fn trim_end(s: Seq<char>) -> Seq<char>
    decreases s.len(),
{
    if s.len() > 0 && is_space(s.last()) {
        trim_end(s.drop_last())
    } else {
        s
    }
}

/// `s` without the white space at its beginning and at its end.
pub open spec fn trimmed(s: Seq<char>) -> Seq<char> {
    let lo = run_end(s, 0, Class::Space);
    trim_end(s.skip(lo))
}

/// What stands between `open` at the beginning of `s` and the next `close`,
/// and what follows that `close`: `None` unless `s` begins with `open`, at
/// least one character follows before `close`, and `close` is there.
pub open spec fn delimited(s: Seq<char>, open: Seq<char>, close: char) -> Option<
    (Seq<char>, Seq<char>),
> {
    if starts_with(s, 0, open) {
        let from = open.len() as int;
        let e = run_end(s, from, Class::Not(close));
        if e > from && e < s.len() {
            Some((s.subrange(from, e), s.skip(e + 1)))
        } else {
            None
        }
    } else {
        None
    }
}

/// What an argument in square brackets says.
pub open spec fn param_of(inner: Seq<char>) -> Option<ArgView> {
    match index_at(inner, 0) {
        None => None,
        Some((index, k)) => if starts_with(inner, k, "::"@) {
            let from = k + 2;
            let e = run_end(inner, from, Class::NotBlank);
            if e > from && e == inner.len() {
                Some(ArgView::Param { index, param: inner.skip(from) })
            } else {
                None
            }
        } else {
            None
        },
    }
}

/// What a process number in brackets says.
pub open spec fn pid_of(inner: Seq<char>) -> Option<ArgView> {
    match index_at(inner, 0) {
        Some((index, k)) => if k == inner.len() {
            Some(ArgView::Pid(index))
        } else {
            None
        },
        None => None,
    }
}

/// The argument that `input` begins with, white space before and behind
/// `input` left aside, and what is left of `input` behind it.
pub open spec fn arg_of(input: Seq<char>) -> Option<(ArgView, Seq<char>)> {
    let t = trimmed(input);
    match delimited(t, "["@, ']') {
        Some((inner, rest)) => if rest.len() == 0 {
            match param_of(inner) {
                Some(a) => Some((a, rest)),
                None => None,
            }
        } else {
            None
        },
        None => match delimited(t, "pid("@, ')') {
            Some((inner, rest)) => if rest.len() == 0 {
                match pid_of(inner) {
                    Some(a) => Some((a, rest)),
                    None => None,
                }
            } else {
                None
            },
            None => {
                let e = run_end(t, 0, Class::NotBlank);
                if e > 0 {
                    Some((ArgView::String(t.take(e)), t.skip(e)))
                } else {
                    None
                }
            },
        },
    }
}

/// `char::is_whitespace`: whether `c` has the Unicode property White_Space.
#[verifier::external_body]
fn is_whitespace(c: char) -> (r: bool)
    ensures
        r == is_space(c),
{
    c.is_whitespace()
}

/// Whether `c` is of the class `k`.
fn of_class(k: Class, c: char) -> (r: bool)
    ensures
        r == in_class(k, c),
{
    match k {
        Class::Digit => 48 <= c as u32 && c as u32 <= 57,
        Class::Blank => c == ' ',
        Class::NotBlank => c != ' ',
        Class::Not(x) => c != x,
        Class::Space => is_whitespace(c),
        Class::NotSpace => !is_whitespace(c),
    }
}

/// The characters of `s`.
fn chars_of(s: &str) -> (r: Vec<char>)
    ensures
        r@ == s@,
{
    let mut out: Vec<char> = Vec::new();
    for c in it: s.chars()
        invariant
            it.seq() == s@,
            out@ == s@.take(it.index() as int),
    {
        out.push(c);
        assert(out@ =~= s@.take(it.index() + 1));
    }
    assert(s@.take(s@.len() as int) =~= s@);
    out
}

/// Where the run of characters of the class `k` ends that begins at `i`.
fn run(s: &Vec<char>, i: usize, k: Class) -> (e: usize)
    requires
        i <= s@.len(),
    ensures
        e == run_end(s@, i as int, k),
        i <= e <= s@.len(),
        forall|j: int| i <= j < e ==> in_class(k, #[trigger] s@[j]),
        e < s@.len() ==> !in_class(k, s@[e as int]),
{
    let mut e: usize = i;
    while e < s.len() && of_class(k, s[e])
        invariant
            i <= e <= s@.len(),
            run_end(s@, i as int, k) == run_end(s@, e as int, k),
            forall|j: int| i <= j < e ==> in_class(k, #[trigger] s@[j]),
        decreases s@.len() - e,
    {
        e += 1;
    }
    e
}

/// Whether `tag` stands in `t` at `i`.
fn has_tag(t: &str, len: usize, i: usize, tag: &str) -> (r: bool)
    requires
        len == t@.len(),
        i <= len,
    ensures
        r == starts_with(t@, i as int, tag@),
{
    let n: usize = tag.unicode_len();
    if n > len - i {
        return false;
    }
    str_eq(t.substring_char(i, i + n), tag)
}

/// The number that stands in `t` at `i`, and where it ends.
fn number(t: &str, cs: &Vec<char>, i: usize) -> (r: Option<(u64, usize)>)
    requires
        cs@ == t@,
        i <= cs@.len(),
    ensures
        match r {
            Some((v, e)) => number_at(t@, i as int) == Some((v, e as int)) && i < e <= cs@.len(),
            None => number_at(t@, i as int) is None,
        },
{
    let e = run(cs, i, Class::Digit);
    if e == i {
        return None;
    }
    match parse_u64(t.substring_char(i, e)) {
        Some(v) => Some((v, e)),
        None => None,
    }
}

/// The number of a process or of a parameter that stands in `t` at `i`.
fn index(t: &str, cs: &Vec<char>, i: usize) -> (r: Option<(usize, usize)>)
    requires
        cs@ == t@,
        i <= cs@.len(),
    ensures
        match r {
            Some((v, e)) => index_at(t@, i as int) == Some((v, e as int)) && i < e <= cs@.len(),
            None => index_at(t@, i as int) is None,
        },
{
    match number(t, cs, i) {
        Some((v, e)) => if v <= usize::MAX as u64 {
            Some((v as usize, e))
        } else {
            None
        },
        None => None,
    }
}

/// Cutting white space off the end stops at the last character that is
/// none.
pub proof fn lemma_trim_end(s: Seq<char>, hi: int)
    requires
        0 <= hi <= s.len(),
        forall|j: int| hi <= j < s.len() ==> is_space(#[trigger] s[j]),
        hi > 0 ==> !is_space(s[hi - 1]),
    ensures
        trim_end(s) == s.take(hi),
    decreases s.len() - hi,
{
    if hi < s.len() {
        assert(s.drop_last().take(hi) =~= s.take(hi));
        lemma_trim_end(s.drop_last(), hi);
    } else {
        assert(s.take(hi) =~= s);
    }
}

/// `input` without the white space at its beginning and at its end.
fn trim(input: &str) -> (r: &str)
    ensures
        r@ == trimmed(input@),
{
    let cs = chars_of(input);
    let lo = run(&cs, 0, Class::Space);
    let mut hi: usize = cs.len();
    while hi > lo && is_whitespace(cs[hi - 1])
        invariant
            lo <= hi <= cs@.len(),
            forall|j: int| hi <= j < cs@.len() ==> is_space(#[trigger] cs@[j]),
        decreases hi,
    {
        hi -= 1;
    }
    proof {
        let tail = cs@.skip(lo as int);
        assert forall|j: int| hi - lo <= j < tail.len() implies is_space(#[trigger] tail[j]) by {
            assert(tail[j] == cs@[j + lo]);
        }
        if hi - lo > 0 {
            assert(tail[hi - lo - 1] == cs@[hi - 1]);
        }
        lemma_trim_end(tail, hi - lo);
        assert(tail.take(hi - lo) =~= cs@.subrange(lo as int, hi as int));
    }
    input.substring_char(lo, hi)
}

/// What stands between `open` at the beginning of `t` and the next `close`,
/// and what follows that `close`.
fn delimit<'a>(t: &'a str, cs: &Vec<char>, open: &str, close: char) -> (r: Option<(&'a str, &'a str)>)
    requires
        cs@ == t@,
    ensures
        match r {
            Some((inner, rest)) => delimited(t@, open@, close) == Some((inner@, rest@)),
            None => delimited(t@, open@, close) is None,
        },
{
    let len: usize = cs.len();
    if !has_tag(t, len, 0, open) {
        return None;
    }
    let from: usize = open.unicode_len();
    let e = run(cs, from, Class::Not(close));
    if e > from && e < len {
        let inner = t.substring_char(from, e);
        let rest = t.substring_char(e + 1, len);
        assert(rest@ =~= t@.skip(e + 1));
        Some((inner, rest))
    } else {
        None
    }
}

/// What an argument in square brackets says.
fn param(inner: &str) -> (r: Option<Arg>)
    ensures
        match r {
            Some(a) => param_of(inner@) == Some(a@),
            None => param_of(inner@) is None,
        },
{
    let cs = chars_of(inner);
    let len: usize = cs.len();
    let (index, k) = match index(inner, &cs, 0) {
        Some(found) => found,
        None => {
            return None;
        },
    };
    if !has_tag(inner, len, k, "::") {
        return None;
    }
    proof {
        reveal_strlit("::");
    }
    let from: usize = k + 2;
    let e = run(&cs, from, Class::NotBlank);
    if e > from && e == len {
        let name = inner.substring_char(from, len);
        assert(name@ =~= inner@.skip(from as int));
        Some(Arg::Param { index, param: name.to_owned() })
    } else {
        None
    }
}

/// What a process number in brackets says.
fn pid(inner: &str) -> (r: Option<Arg>)
    ensures
        match r {
            Some(a) => pid_of(inner@) == Some(a@),
            None => pid_of(inner@) is None,
        },
{
    let cs = chars_of(inner);
    match index(inner, &cs, 0) {
        Some((index, k)) => if k == cs.len() {
            Some(Arg::Pid(index))
        } else {
            None
        },
        None => None,
    }
}

/// What a parsed argument and what is left behind it, or the failure to
/// find one, hold.
pub open spec fn arg_outcome(r: Result<(&str, Arg), ParseError>) -> Option<(ArgView, Seq<char>)> {
    match r {
        Ok((rest, a)) => Some((a@, rest@)),
        Err(_) => None,
    }
}

/// Reads the argument that `input` begins with, white space before and
/// behind `input` left aside, and returns what is left of `input` behind
/// it, and the argument.
pub fn arg(input: &str) -> (r: Result<(&str, Arg), ParseError>)
    ensures
        arg_outcome(r) == arg_of(input@),
{
    let t = trim(input);
    let cs = chars_of(t);
    match delimit(t, &cs, "[", ']') {
        Some((inner, rest)) => {
            if rest.unicode_len() != 0 {
                return Err(ParseError);
            }
            match param(inner) {
                Some(a) => {
                    return Ok((rest, a));
                },
                None => {
                    return Err(ParseError);
                },
            }
        },
        None => {},
    }
    match delimit(t, &cs, "pid(", ')') {
        Some((inner, rest)) => {
            if rest.unicode_len() != 0 {
                return Err(ParseError);
            }
            match pid(inner) {
                Some(a) => {
                    return Ok((rest, a));
                },
                None => {
                    return Err(ParseError);
                },
            }
        },
        None => {},
    }
    let e = run(&cs, 0, Class::NotBlank);
    if e == 0 {
        return Err(ParseError);
    }
    let word = t.substring_char(0, e);
    let rest = t.substring_char(e, cs.len());
    proof {
        assert(word@ =~= t@.take(e as int));
        assert(rest@ =~= t@.skip(e as int));
    }
    Ok((rest, Arg::String(word.to_owned())))
}

/// Where one of the two spellings of a keyword ends that `t` begins with.
pub open spec fn keyword_end(t: Seq<char>, lower: Seq<char>, upper: Seq<char>) -> Option<int> {
    if starts_with(t, 0, lower) {
        Some(lower.len() as int)
    } else if starts_with(t, 0, upper) {
        Some(upper.len() as int)
    } else {
        None
    }
}

/// Where the blanks end that stand in `t` at `i`: one at least.
pub open spec fn blanks_end(t: Seq<char>, i: int) -> Option<int> {
    let e = run_end(t, i, Class::Blank);
    if e > i {
        Some(e)
    } else {
        None
    }
}

/// What a line says that begins with a keyword, blanks and a number, and
/// where that number ends.
pub open spec fn headed(t: Seq<char>, lower: Seq<char>, upper: Seq<char>) -> Option<(u64, int)> {
    match keyword_end(t, lower, upper) {
        None => None,
        Some(k) => match blanks_end(t, k) {
            None => None,
            Some(b) => number_at(t, b),
        },
    }
}

/// What a `kill` line says.
pub open spec fn kill_of(input: Seq<char>) -> Option<CommandView> {
    let t = trimmed(input);
    match headed(t, "kill"@, "KILL"@) {
        Some((id, e)) => if e == t.len() && id <= usize::MAX {
            Some(CommandView::Kill(id as usize))
        } else {
            None
        },
        None => None,
    }
}

/// What a `sleep` line says.
pub open spec fn sleep_of(input: Seq<char>) -> Option<CommandView> {
    let t = trimmed(input);
    match headed(t, "sleep"@, "SLEEP"@) {
        Some((ms, e)) => if e == t.len() {
            Some(CommandView::Sleep(ms))
        } else {
            None
        },
        None => None,
    }
}

/// The time to wait and the number of sleeps that stand in `t` at `i`,
/// blanks before each, and where they end.
pub open spec fn duration_at(t: Seq<char>, i: int) -> Option<((u64, u64), int)> {
    match blanks_end(t, i) {
        None => None,
        Some(b) => match number_at(t, b) {
            None => None,
            Some((ms, e)) => match blanks_end(t, e) {
                None => None,
                Some(b2) => match number_at(t, b2) {
                    None => None,
                    Some((sleeps, e2)) => Some(((ms, sleeps), e2)),
                },
            },
        },
    }
}

/// What a `wait` line says.
pub open spec fn wait_of(input: Seq<char>) -> Option<CommandView> {
    let t = trimmed(input);
    match headed(t, "wait"@, "WAIT"@) {
        Some((id, e)) => if id <= usize::MAX {
            let (timeout, end) = match duration_at(t, e) {
                Some((d, e2)) => (Some(d), e2),
                None => (None, e),
            };
            if end == t.len() {
                Some(CommandView::WaitFor { id: id as usize, timeout })
            } else {
                None
            }
        } else {
            None
        },
        None => None,
    }
}

/// The map that `s` begins with and how many characters it takes: `print`,
/// `append(` with an argument and `)`, or the text up to the next blank,
/// which is the argument that names the file to make.
pub open spec fn map_of(s: Seq<char>) -> Option<(MapView, int)> {
    if starts_with(s, 0, "print"@) {
        Some((MapView::Print, "print"@.len() as int))
    } else {
        match delimited(s, "append("@, ')') {
            Some((inner, rest)) => match arg_of(inner) {
                Some((a, _)) => Some((MapView::Append(a), s.len() - rest.len())),
                None => None,
            },
            None => {
                let e = run_end(s, 0, Class::NotBlank);
                if e > 0 {
                    match arg_of(s.take(e)) {
                        Some((a, _)) => Some((MapView::Create(a), e)),
                        None => None,
                    }
                } else {
                    None
                }
            },
        }
    }
}

/// The map that follows `flag` in `t` at `i`, and where it ends.
pub open spec fn option_at(t: Seq<char>, i: int, flag: Seq<char>) -> Option<(MapView, int)> {
    if starts_with(t, i, flag) {
        match map_of(t.skip(i + flag.len())) {
            Some((m, n)) => Some((m, i + flag.len() + n)),
            None => None,
        }
    } else {
        None
    }
}

/// The maps of the two streams after the options that stand in `t` from `i`
/// on have been read, each with blanks before it, and where the command
/// begins. A later option for a stream replaces an earlier one.
pub open spec fn options_at(t: Seq<char>, i: int, out: MapView, err: MapView) -> Option<
    (MapView, MapView, int),
>
    decreases t.len() - i,
{
    match blanks_end(t, i) {
        None => None,
        Some(b) => match option_at(t, b, "--stdout="@) {
            Some((m, e)) => if i < e <= t.len() {
                options_at(t, e, m, err)
            } else {
                None
            },
            None => match option_at(t, b, "--stderr="@) {
                Some((m, e)) => if i < e <= t.len() {
                    options_at(t, e, out, m)
                } else {
                    None
                },
                None => Some((out, err, b)),
            },
        },
    }
}

/// The words of `s`: what stands between its white space.
pub open spec fn words(s: Seq<char>) -> Seq<Seq<char>>
    decreases s.len(),
{
    let lo = run_end(s, 0, Class::Space);
    if lo >= s.len() {
        Seq::empty()
    } else {
        let e = run_end(s, lo, Class::NotSpace);
        if lo < e <= s.len() {
            seq![s.subrange(lo, e)] + words(s.skip(e))
        } else {
            Seq::empty()
        }
    }
}

/// The arguments that the first `n` words are, if each of them is one.
pub open spec fn args_of(ws: Seq<Seq<char>>, n: nat) -> Option<Seq<ArgView>>
    decreases n,
{
    if n == 0 || n > ws.len() {
        Some(Seq::empty())
    } else {
        match args_of(ws, (n - 1) as nat) {
            None => None,
            Some(head) => match arg_of(ws[n - 1]) {
                Some((a, _)) => Some(head.push(a)),
                None => None,
            },
        }
    }
}

/// What a `spawn` line says.
pub open spec fn spawn_of(input: Seq<char>) -> Option<CommandView> {
    let t = trimmed(input);
    match headed(t, "spawn"@, "SPAWN"@) {
        None => None,
        Some((id, e)) => if id <= usize::MAX {
            match options_at(t, e, MapView::Print, MapView::Print) {
                None => None,
                Some((stdout, stderr, c)) => {
                    let ce = run_end(t, c, Class::NotBlank);
                    if ce > c {
                        let ws = words(t.skip(ce));
                        match args_of(ws, ws.len()) {
                            Some(args) => Some(
                                CommandView::Spawn {
                                    id: id as usize,
                                    command: t.subrange(c, ce),
                                    args,
                                    stdout,
                                    stderr,
                                },
                            ),
                            None => None,
                        }
                    } else {
                        None
                    }
                },
            }
        } else {
            None
        },
    }
}

/// What a line says: the first of `kill`, `sleep`, `wait` and `spawn` that
/// it can be read as.
pub open spec fn command_of(input: Seq<char>) -> Option<CommandView> {
    match kill_of(input) {
        Some(c) => Some(c),
        None => match sleep_of(input) {
            Some(c) => Some(c),
            None => match wait_of(input) {
                Some(c) => Some(c),
                None => spawn_of(input),
            },
        },
    }
}

/// Where one of the two spellings of a keyword ends that `t` begins with.
fn keyword(t: &str, len: usize, lower: &str, upper: &str) -> (r: Option<usize>)
    requires
        len == t@.len(),
    ensures
        match r {
            Some(k) => keyword_end(t@, lower@, upper@) == Some(k as int) && k <= len,
            None => keyword_end(t@, lower@, upper@) is None,
        },
{
    if has_tag(t, len, 0, lower) {
        Some(lower.unicode_len())
    } else if has_tag(t, len, 0, upper) {
        Some(upper.unicode_len())
    } else {
        None
    }
}

/// Where the blanks end that stand at `i`.
fn blanks(cs: &Vec<char>, i: usize) -> (r: Option<usize>)
    requires
        i <= cs@.len(),
    ensures
        match r {
            Some(e) => blanks_end(cs@, i as int) == Some(e as int) && i < e <= cs@.len(),
            None => blanks_end(cs@, i as int) is None,
        },
{
    let e = run(cs, i, Class::Blank);
    if e > i {
        Some(e)
    } else {
        None
    }
}

/// What a line says that begins with a keyword, blanks and a number.
fn head(t: &str, cs: &Vec<char>, lower: &str, upper: &str) -> (r: Option<(u64, usize)>)
    requires
        cs@ == t@,
    ensures
        match r {
            Some((v, e)) => headed(t@, lower@, upper@) == Some((v, e as int)) && e <= cs@.len(),
            None => headed(t@, lower@, upper@) is None,
        },
{
    let k = match keyword(t, cs.len(), lower, upper) {
        Some(k) => k,
        None => {
            return None;
        },
    };
    let b = match blanks(cs, k) {
        Some(b) => b,
        None => {
            return None;
        },
    };
    number(t, cs, b)
}

/// What a command, or the failure to read one, holds.
pub open spec fn line_view(r: Option<TestCommand>) -> Option<CommandView> {
    match r {
        Some(c) => Some(c@),
        None => None,
    }
}

/// Reads a `kill` line.
fn kill(t: &str, cs: &Vec<char>) -> (r: Option<TestCommand>)
    requires
        cs@ == t@,
    ensures
        line_view(r) == match headed(t@, "kill"@, "KILL"@) {
            Some((id, e)) => if e == t@.len() && id <= usize::MAX {
                Some(CommandView::Kill(id as usize))
            } else {
                None
            },
            None => None,
        },
{
    match head(t, cs, "kill", "KILL") {
        Some((id, e)) => if e == cs.len() && id <= usize::MAX as u64 {
            Some(TestCommand::Kill(id as usize))
        } else {
            None
        },
        None => None,
    }
}

/// Reads a `sleep` line.
fn sleep(t: &str, cs: &Vec<char>) -> (r: Option<TestCommand>)
    requires
        cs@ == t@,
    ensures
        line_view(r) == match headed(t@, "sleep"@, "SLEEP"@) {
            Some((ms, e)) => if e == t@.len() {
                Some(CommandView::Sleep(ms))
            } else {
                None
            },
            None => None,
        },
{
    match head(t, cs, "sleep", "SLEEP") {
        Some((ms, e)) => if e == cs.len() {
            Some(TestCommand::Sleep(ms))
        } else {
            None
        },
        None => None,
    }
}

/// The time to wait and the number of sleeps that stand at `i`.
fn wait_duration(t: &str, cs: &Vec<char>, i: usize) -> (r: Option<((u64, u64), usize)>)
    requires
        cs@ == t@,
        i <= cs@.len(),
    ensures
        match r {
            Some((d, e)) => duration_at(t@, i as int) == Some((d, e as int)) && e <= cs@.len(),
            None => duration_at(t@, i as int) is None,
        },
{
    let b = match blanks(cs, i) {
        Some(b) => b,
        None => {
            return None;
        },
    };
    let (ms, e) = match number(t, cs, b) {
        Some(found) => found,
        None => {
            return None;
        },
    };
    let b2 = match blanks(cs, e) {
        Some(b) => b,
        None => {
            return None;
        },
    };
    match number(t, cs, b2) {
        Some((sleeps, e2)) => Some(((ms, sleeps), e2)),
        None => None,
    }
}

/// Reads a `wait` line.
fn wait_for(t: &str, cs: &Vec<char>) -> (r: Option<TestCommand>)
    requires
        cs@ == t@,
    ensures
        line_view(r) == match headed(t@, "wait"@, "WAIT"@) {
            Some((id, e)) => if id <= usize::MAX {
                let (timeout, end) = match duration_at(t@, e) {
                    Some((d, e2)) => (Some(d), e2),
                    None => (None, e),
                };
                if end == t@.len() {
                    Some(CommandView::WaitFor { id: id as usize, timeout })
                } else {
                    None
                }
            } else {
                None
            },
            None => None,
        },
{
    let (id, e) = match head(t, cs, "wait", "WAIT") {
        Some(found) => found,
        None => {
            return None;
        },
    };
    if id > usize::MAX as u64 {
        return None;
    }
    let (timeout, end) = match wait_duration(t, cs, e) {
        Some((d, e2)) => (Some(d), e2),
        None => (None, e),
    };
    if end == cs.len() {
        Some(TestCommand::WaitFor { id: id as usize, timeout })
    } else {
        None
    }
}

/// The map that `s` begins with and how many characters it takes.
fn output_map(s: &str) -> (r: Option<(OutputMap, usize)>)
    ensures
        match r {
            Some((m, n)) => map_of(s@) == Some((m@, n as int)) && n <= s@.len(),
            None => map_of(s@) is None,
        },
{
    let cs = chars_of(s);
    let len: usize = cs.len();
    if has_tag(s, len, 0, "print") {
        return Some((OutputMap::Print, "print".unicode_len()));
    }
    match delimit(s, &cs, "append(", ')') {
        Some((inner, rest)) => {
            let used: usize = len - rest.unicode_len();
            return match arg(inner) {
                Ok((_, a)) => Some((OutputMap::Append(a), used)),
                Err(_) => None,
            };
        },
        None => {},
    }
    let e = run(&cs, 0, Class::NotBlank);
    if e == 0 {
        return None;
    }
    let file = s.substring_char(0, e);
    assert(file@ =~= s@.take(e as int));
    match arg(file) {
        Ok((_, a)) => Some((OutputMap::Create(a), e)),
        Err(_) => None,
    }
}

/// The map that follows `flag` at `i`, and where it ends.
fn option(t: &str, len: usize, i: usize, flag: &str) -> (r: Option<(OutputMap, usize)>)
    requires
        len == t@.len(),
        i <= len,
    ensures
        match r {
            Some((m, e)) => option_at(t@, i as int, flag@) == Some((m@, e as int)) && i <= e <= len,
            None => option_at(t@, i as int, flag@) is None,
        },
{
    if !has_tag(t, len, i, flag) {
        return None;
    }
    let from: usize = i + flag.unicode_len();
    let tail = t.substring_char(from, len);
    assert(tail@ =~= t@.skip(from as int));
    match output_map(tail) {
        Some((m, n)) => Some((m, from + n)),
        None => None,
    }
}

/// The words of the part of `t` from `from` on.
#[verifier::rlimit(40)]
fn split_words<'a>(t: &'a str, cs: &Vec<char>, from: usize) -> (r: Vec<&'a str>)
    requires
        cs@ == t@,
        from <= cs@.len(),
    ensures
        r@.len() == words(t@.skip(from as int)).len(),
        forall|j: int| 0 <= j < r@.len() ==> (#[trigger] r@[j])@ == words(t@.skip(from as int))[j],
{
    let mut out: Vec<&'a str> = Vec::new();
    let mut pos: usize = from;
    let ghost all = words(t@.skip(from as int));
    let ghost mut done: Seq<Seq<char>> = Seq::empty();
    loop
        invariant
            cs@ == t@,
            from <= pos <= cs@.len(),
            out@.len() == done.len(),
            forall|j: int| 0 <= j < out@.len() ==> (#[trigger] out@[j])@ == done[j],
            all == done + words(t@.skip(pos as int)),
        ensures
            out@.len() == all.len(),
            forall|j: int| 0 <= j < out@.len() ==> (#[trigger] out@[j])@ == all[j],
        decreases cs@.len() - pos,
    {
        let ghost rest = t@.skip(pos as int);
        let lo = run(cs, pos, Class::Space);
        proof {
            lemma_run_skip(t@, pos as int, pos as int, Class::Space);
        }
        if lo >= cs.len() {
            assert(words(rest) =~= Seq::<Seq<char>>::empty());
            assert(done + Seq::<Seq<char>>::empty() =~= done);
            break ;
        }
        let e = run(cs, lo, Class::NotSpace);
        proof {
            lemma_run_skip(t@, pos as int, lo as int, Class::NotSpace);
            assert(rest.subrange(lo - pos, e - pos) =~= t@.subrange(lo as int, e as int));
            assert(rest.skip(e - pos) =~= t@.skip(e as int));
            assert(e > lo);
            assert(words(rest) == seq![t@.subrange(lo as int, e as int)] + words(
                t@.skip(e as int),
            ));
            assert(done + words(rest) =~= done.push(t@.subrange(lo as int, e as int)) + words(
                t@.skip(e as int),
            ));
            done = done.push(t@.subrange(lo as int, e as int));
        }
        out.push(t.substring_char(lo, e));
        pos = e;
    }
    out
}

/// A run in a part of a sequence ends where it ends in the whole.
pub proof fn lemma_run_skip(s: Seq<char>, from: int, i: int, k: Class)
    requires
        0 <= from <= i <= s.len(),
    ensures
        run_end(s.skip(from), i - from, k) == run_end(s, i, k) - from,
    decreases s.len() - i,
{
    if i < s.len() {
        assert(s.skip(from)[i - from] == s[i]);
        if in_class(k, s[i]) {
            lemma_run_skip(s, from, i + 1, k);
        }
    }
}

/// The maps of the two streams after the options that stand in `t` from `e`
/// on have been read, and where the command begins.
fn options(t: &str, cs: &Vec<char>, e: usize) -> (r: Option<(OutputMap, OutputMap, usize)>)
    requires
        cs@ == t@,
        e <= cs@.len(),
    ensures
        match r {
            Some((out, err, c)) => options_at(t@, e as int, MapView::Print, MapView::Print) == Some(
                (out@, err@, c as int),
            ) && c <= cs@.len(),
            None => options_at(t@, e as int, MapView::Print, MapView::Print) is None,
        },
{
    let len: usize = cs.len();
    let mut out = OutputMap::Print;
    let mut err = OutputMap::Print;
    let mut i: usize = e;
    loop
        invariant
            cs@ == t@,
            len == cs@.len(),
            i <= len,
            options_at(t@, e as int, MapView::Print, MapView::Print) == options_at(
                t@,
                i as int,
                out@,
                err@,
            ),
        decreases len - i,
    {
        let b = match blanks(cs, i) {
            Some(b) => b,
            None => {
                return None;
            },
        };
        match option(t, len, b, "--stdout=") {
            Some((m, end)) => {
                out = m;
                i = end;
                continue ;
            },
            None => {},
        }
        match option(t, len, b, "--stderr=") {
            Some((m, end)) => {
                err = m;
                i = end;
                continue ;
            },
            None => {},
        }
        return Some((out, err, b));
    }
}

/// Reads a `spawn` line.
#[verifier::loop_isolation(false)]
fn spawn(t: &str, cs: &Vec<char>) -> (r: Option<TestCommand>)
    requires
        cs@ == t@,
    ensures
        line_view(r) == match headed(t@, "spawn"@, "SPAWN"@) {
            None => None,
            Some((id, e)) => if id <= usize::MAX {
                match options_at(t@, e, MapView::Print, MapView::Print) {
                    None => None,
                    Some((stdout, stderr, c)) => {
                        let ce = run_end(t@, c, Class::NotBlank);
                        if ce > c {
                            let ws = words(t@.skip(ce));
                            match args_of(ws, ws.len()) {
                                Some(args) => Some(
                                    CommandView::Spawn {
                                        id: id as usize,
                                        command: t@.subrange(c, ce),
                                        args,
                                        stdout,
                                        stderr,
                                    },
                                ),
                                None => None,
                            }
                        } else {
                            None
                        }
                    },
                }
            } else {
                None
            },
        },
{
    let len: usize = cs.len();
    let (id, e) = match head(t, cs, "spawn", "SPAWN") {
        Some(found) => found,
        None => {
            return None;
        },
    };
    if id > usize::MAX as u64 {
        return None;
    }
    let (out, err, c) = match options(t, cs, e) {
        Some(found) => found,
        None => {
            return None;
        },
    };
    let ce = run(cs, c, Class::NotBlank);
    if ce == c {
        return None;
    }
    let command = t.substring_char(c, ce);
    let pieces = split_words(t, cs, ce);
    let ghost ws = words(t@.skip(ce as int));
    let mut args: Vec<Arg> = Vec::new();
    let mut k: usize = 0;
    while k < pieces.len()
        invariant
            k <= pieces@.len(),
            pieces@.len() == ws.len(),
            forall|j: int| 0 <= j < pieces@.len() ==> (#[trigger] pieces@[j])@ == ws[j],
            args_of(ws, k as nat) == Some(args_view(args@)),
        decreases pieces@.len() - k,
    {
        let ghost before = args@;
        match arg(pieces[k]) {
            Ok((_, a)) => {
                args.push(a);
                assert(args_view(args@) =~= args_view(before).push(a@));
            },
            Err(_) => {
                proof {
                    lemma_args_fail(ws, (k + 1) as nat);
                }
                return None;
            },
        }
        k += 1;
    }
    Some(
        TestCommand::Spawn {
            id: id as usize,
            command: command.to_owned(),
            args,
            stdout: out,
            stderr: err,
        },
    )
}

/// Words of which one among the first `n` is no argument are no
/// arguments.
pub proof fn lemma_args_fail(ws: Seq<Seq<char>>, n: nat)
    requires
        n <= ws.len(),
        args_of(ws, n) is None,
    ensures
        args_of(ws, ws.len()) is None,
    decreases ws.len() - n,
{
    if n < ws.len() {
        lemma_args_fail(ws, n + 1);
    }
}

/// What a parsed line and what is left behind it, or the failure to read
/// one, hold.
pub open spec fn command_outcome(r: Result<(&str, TestCommand), ParseError>) -> Option<CommandView> {
    match r {
        Ok((rest, c)) => Some(c@),
        Err(_) => None,
    }
}

/// Reads a line as a command: as a `kill`, a `sleep`, a `wait` or a
/// `spawn` line, whichever fits first. Nothing is left of a line that has
/// been read.
pub fn test_command(i: &str) -> (r: Result<(&str, TestCommand), ParseError>)
    ensures
        command_outcome(r) == command_of(i@),
        r matches Ok((rest, _)) ==> rest@.len() == 0,
{
    let t = trim(i);
    let cs = chars_of(t);
    let len: usize = cs.len();
    let rest = t.substring_char(len, len);
    if let Some(c) = kill(t, &cs) {
        return Ok((rest, c));
    }
    if let Some(c) = sleep(t, &cs) {
        return Ok((rest, c));
    }
    if let Some(c) = wait_for(t, &cs) {
        return Ok((rest, c));
    }
    match spawn(t, &cs) {
        Some(c) => Ok((rest, c)),
        None => Err(ParseError),
    }
}

} // verus!
