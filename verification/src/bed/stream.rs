//! What is read from the streams of a process: bytes on their way to a
//! file, and the line that the display shows.

use vstd::prelude::*;
use vstd::utf8::{
    decode_utf8, is_char_boundary_iff_not_is_continuation_byte, valid_utf8,
    valid_utf8_split,
};

verus! {

/// Whether `b` ends a line: a line feed or a carriage return.
pub open spec fn is_delimiter(b: u8) -> bool {
    b == 10 || b == 13
}

/// `bytes` without its carriage returns.
pub open spec fn without_returns(bytes: Seq<u8>) -> Seq<u8>
    decreases bytes.len(),
{
    if bytes.len() == 0 {
        Seq::empty()
    } else if bytes.last() == 13 {
        without_returns(bytes.drop_last())
    } else {
        without_returns(bytes.drop_last()).push(bytes.last())
    }
}

/// The bytes of a chunk that go to a file: all but the carriage returns.
pub fn strip_carriage_returns(chunk: &[u8]) -> (r: Vec<u8>)
    ensures
        r@ == without_returns(chunk@),
{
    let mut out: Vec<u8> = Vec::new();
    let mut i: usize = 0;
    while i < chunk.len()
        invariant
            i <= chunk.len(),
            out@ == without_returns(chunk@.take(i as int)),
        decreases chunk.len() - i,
    {
        proof {
            assert(chunk@.take(i + 1).drop_last() =~= chunk@.take(i as int));
            assert(chunk@.take(i + 1).last() == chunk@[i as int]);
        }
        if chunk[i] != 13 {
            out.push(chunk[i]);
        }
        i += 1;
    }
    proof {
        assert(chunk@.take(i as int) =~= chunk@);
    }
    out
}

/// The line that the display shows for a stream: the bytes of the line
/// that was begun last, and whether that line has ended.
#[derive(Debug)]
pub struct LiveLine {
    pub bytes: Vec<u8>,
    pub clear: bool,
}

/// The line and whether it has ended after `chunk` has been read: a
/// delimiter ends the line, and the first byte after it begins a new one.
pub open spec fn fed(line: Seq<u8>, clear: bool, chunk: Seq<u8>) -> (Seq<u8>, bool)
    decreases chunk.len(),
{
    if chunk.len() == 0 {
        (line, clear)
    } else {
        let (before, ended) = fed(line, clear, chunk.drop_last());
        if is_delimiter(chunk.last()) {
            (before, true)
        } else if ended {
            (seq![chunk.last()], false)
        } else {
            (before.push(chunk.last()), false)
        }
    }
}

/// The text that bytes are shown as: what they spell where they are valid
/// UTF-8, and elsewhere what they spell with every invalid sequence
/// replaced.
pub uninterp spec fn lossy(bytes: Seq<u8>) -> Seq<char>;

/// `String::from_utf8_lossy`: the text that the bytes are shown as, which is
/// the text that they spell where they are valid UTF-8.
#[verifier::external_body]
fn lossy_text(bytes: &[u8]) -> (r: String)
    ensures
        r@ == lossy(bytes@),
        valid_utf8(bytes@) ==> r@ == decode_utf8(bytes@),
{
    String::from_utf8_lossy(bytes).to_string()
}

impl LiveLine {
    /// An empty line that has not ended.
    pub fn new() -> (r: Self)
        ensures
            r.bytes@.len() == 0,
            !r.clear,
    {
        Self { bytes: Vec::new(), clear: false }
    }

    /// Reads a chunk of the stream.
    pub fn feed(&mut self, chunk: &[u8])
        ensures
            (final(self).bytes@, final(self).clear) == fed(old(self).bytes@, old(self).clear, chunk@),
    {
        let mut i: usize = 0;
        while i < chunk.len()
            invariant
                i <= chunk.len(),
                (self.bytes@, self.clear) == fed(
                    old(self).bytes@,
                    old(self).clear,
                    chunk@.take(i as int),
                ),
            decreases chunk.len() - i,
        {
            proof {
                assert(chunk@.take(i + 1).drop_last() =~= chunk@.take(i as int));
                assert(chunk@.take(i + 1).last() == chunk@[i as int]);
            }
            let byte = chunk[i];
            if byte == 10 || byte == 13 {
                self.clear = true;
            } else {
                if self.clear {
                    self.bytes.clear();
                    self.clear = false;
                    self.bytes.push(byte);
                    assert(self.bytes@ =~= seq![byte]);
                } else {
                    self.bytes.push(byte);
                }
            }
            i += 1;
        }
        proof {
            assert(chunk@.take(i as int) =~= chunk@);
        }
    }

    /// The line as text.
    pub fn text(&self) -> (r: String)
        ensures
            r@ == lossy(self.bytes@),
            valid_utf8(self.bytes@) ==> r@ == decode_utf8(self.bytes@),
    {
        lossy_text(self.bytes.as_slice())
    }
}

/// The position of the first delimiter in `bytes`, if it holds one.
pub open spec fn first_delimiter(bytes: Seq<u8>) -> Option<int>
    decreases bytes.len(),
{
    if bytes.len() == 0 {
        None
    } else {
        match first_delimiter(bytes.drop_last()) {
            Some(i) => Some(i),
            None => if is_delimiter(bytes.last()) {
                Some(bytes.len() - 1)
            } else {
                None
            },
        }
    }
}

/// `memchr::memchr2`: the position of the first byte of `haystack` that is
/// `needle1` or `needle2`, if there is one.
#[verifier::external_body]
fn memchr2(needle1: u8, needle2: u8, haystack: &[u8]) -> (r: Option<usize>)
    ensures
        match r {
            Some(i) => i < haystack@.len() && (haystack@[i as int] == needle1 || haystack@[i as int]
                == needle2) && forall|j: int|
                0 <= j < i ==> haystack@[j] != needle1 && haystack@[j] != needle2,
            None => forall|j: int|
                0 <= j < haystack@.len() ==> haystack@[j] != needle1 && haystack@[j] != needle2,
        },
{
    memchr::memchr2(needle1, needle2, haystack)
}

/// What the search finds is the first delimiter.
pub proof fn lemma_first_delimiter(bytes: Seq<u8>)
    ensures
        match first_delimiter(bytes) {
            Some(i) => 0 <= i < bytes.len() && is_delimiter(bytes[i]) && forall|j: int|
                0 <= j < i ==> !is_delimiter(#[trigger] bytes[j]),
            None => forall|j: int| 0 <= j < bytes.len() ==> !is_delimiter(#[trigger] bytes[j]),
        },
    decreases bytes.len(),
{
    if bytes.len() > 0 {
        let rest = bytes.drop_last();
        lemma_first_delimiter(rest);
        assert(forall|j: int| 0 <= j < rest.len() ==> rest[j] == bytes[j]);
    }
}

/// Where the first delimiter of `bytes` stands and where the line after it
/// ends: at the next delimiter, or at the end of the bytes.
pub fn find_delimiters(bytes: &[u8]) -> (r: Option<(usize, usize)>)
    ensures
        match r {
            Some((first, end)) => first_delimiter(bytes@) == Some(first as int) && first < end
                <= bytes@.len() && first_delimiter(bytes@.subrange(first + 1, end as int)) is None
                && (end < bytes@.len() ==> is_delimiter(bytes@[end as int])),
            None => first_delimiter(bytes@) is None,
        },
{
    proof {
        lemma_first_delimiter(bytes@);
    }
    let len: usize = bytes.len();
    let first: usize = match memchr2(10, 13, bytes) {
        Some(first) => first,
        None => {
            assert(forall|j: int| 0 <= j < bytes@.len() ==> !is_delimiter(#[trigger] bytes@[j]));
            return None;
        },
    };
    assert(forall|j: int| 0 <= j < first ==> !is_delimiter(#[trigger] bytes@[j]));
    assert(is_delimiter(bytes@[first as int]));
    let mut end: usize = first + 1;
    while end < bytes.len()
        invariant
            first < end <= bytes@.len(),
            forall|j: int| first < j < end ==> !is_delimiter(#[trigger] bytes@[j]),
        ensures
            first < end <= bytes@.len(),
            forall|j: int| first < j < end ==> !is_delimiter(#[trigger] bytes@[j]),
            end < bytes@.len() ==> is_delimiter(bytes@[end as int]),
        decreases bytes.len() - end,
    {
        if bytes[end] == 10 || bytes[end] == 13 {
            break ;
        }
        end += 1;
    }
    proof {
        let tail = bytes@.subrange(first + 1, end as int);
        lemma_first_delimiter(tail);
        if let Some(i) = first_delimiter(tail) {
            assert(tail[i] == bytes@[first + 1 + i]);
        }
    }
    Some((first, end))
}

/// Takes the next line out of what a reader has ready. Up to the first
/// delimiter the bytes go to `buf`, and the line is then done; the bytes up
/// to the delimiter after that are used up with it. Without a delimiter all
/// bytes go to `buf` and the line goes on. Returns whether the line is done
/// and how many bytes were used.
pub fn take_line(available: &[u8], buf: &mut Vec<u8>) -> (r: (bool, usize))
    ensures
        r.1 <= available@.len(),
        match first_delimiter(available@) {
            Some(first) => r.0 && final(buf)@ == old(buf)@ + available@.take(first) && first < r.1
                && first_delimiter(available@.subrange(first + 1, r.1 as int)) is None && (r.1
                < available@.len() ==> is_delimiter(available@[r.1 as int])),
            None => !r.0 && r.1 == available@.len() && final(buf)@ == old(buf)@ + available@,
        },
{
    let (done, upto, used): (bool, usize, usize) = match find_delimiters(available) {
        Some((start, end)) => (true, start, end),
        None => (false, available.len(), available.len()),
    };
    let mut i: usize = 0;
    while i < upto
        invariant
            i <= upto <= available@.len(),
            buf@ == old(buf)@ + available@.take(i as int),
        decreases upto - i,
    {
        buf.push(available[i]);
        assert(buf@ =~= old(buf)@ + available@.take(i + 1));
        i += 1;
    }
    proof {
        assert(available@.take(available@.len() as int) =~= available@);
    }
    (done, used)
}

/// The position of the last delimiter in `bytes`, if it holds one.
pub open spec fn last_delimiter(bytes: Seq<u8>) -> Option<int>
    decreases bytes.len(),
{
    if bytes.len() == 0 {
        None
    } else if is_delimiter(bytes.last()) {
        Some(bytes.len() - 1)
    } else {
        last_delimiter(bytes.drop_last())
    }
}

/// What the search from the end finds is a delimiter.
pub proof fn lemma_last_delimiter(bytes: Seq<u8>)
    ensures
        last_delimiter(bytes) matches Some(i) ==> 0 <= i < bytes.len() && is_delimiter(bytes[i]),
    decreases bytes.len(),
{
    if bytes.len() > 0 && !is_delimiter(bytes.last()) {
        lemma_last_delimiter(bytes.drop_last());
    }
}

/// The position of the last delimiter among the first `n` bytes.
fn find_last_delimiter(bytes: &[u8], n: usize) -> (r: Option<usize>)
    requires
        n <= bytes@.len(),
    ensures
        match r {
            Some(i) => last_delimiter(bytes@.take(n as int)) == Some(i as int) && i < n,
            None => last_delimiter(bytes@.take(n as int)) is None,
        },
{
    let mut i: usize = n;
    while i > 0
        invariant
            i <= n <= bytes@.len(),
            last_delimiter(bytes@.take(n as int)) == last_delimiter(bytes@.take(i as int)),
        decreases i,
    {
        proof {
            assert(bytes@.take(i as int).drop_last() =~= bytes@.take(i - 1));
            assert(bytes@.take(i as int).last() == bytes@[i - 1]);
        }
        i -= 1;
        if bytes[i] == 10 || bytes[i] == 13 {
            return Some(i);
        }
    }
    None
}

/// How many bytes the invalid sequence takes up that follows the longest
/// valid beginning of `bytes`; none where `bytes` is valid throughout or
/// stops short in the middle of a character.
pub uninterp spec fn invalid_len(bytes: Seq<u8>) -> Option<usize>;

/// Whether `valid` is the length of the longest valid beginning of `bytes`.
pub open spec fn is_valid_len(bytes: Seq<u8>, valid: int) -> bool {
    &&& 0 <= valid <= bytes.len()
    &&& valid_utf8(bytes.take(valid))
    &&& forall|i: int| valid < i <= bytes.len() ==> !valid_utf8(#[trigger] bytes.take(i))
}

/// `std::str::from_utf8`: how far the bytes are valid UTF-8, and what stands
/// in the way: nothing where they are valid throughout or stop short in the
/// middle of a character, which then has at most three bytes, else an
/// invalid sequence of at least one byte that lies within the bytes. The
/// two numbers are the two fields of the error that the call returns, which
/// only its accessors `valid_up_to` and `error_len` hand out.
#[verifier::external_body]
fn utf8_scan(bytes: &[u8]) -> (r: (usize, Option<usize>))
    ensures
        is_valid_len(bytes@, r.0 as int),
        r.1 == invalid_len(bytes@),
        match r.1 {
            Some(n) => 1 <= n && r.0 + n <= bytes@.len(),
            None => bytes@.len() - r.0 <= 3,
        },
{
    match std::str::from_utf8(bytes) {
        Ok(_) => (bytes.len(), None),
        Err(e) => (e.valid_up_to(), e.error_len()),
    }
}

/// The length of the longest valid beginning of `bytes`.
pub open spec fn valid_len(bytes: Seq<u8>) -> int {
    choose|valid: int| is_valid_len(bytes, valid)
}

/// The line that ends at the delimiter at `idx`: what stands between it
/// and the delimiter before it.
pub open spec fn line_before(bytes: Seq<u8>, idx: int) -> Seq<u8> {
    let before = bytes.take(idx);
    match last_delimiter(before) {
        Some(start) => before.skip(start + 1),
        None => before,
    }
}

/// What one look at the bytes read so far gives: the line to show, if one
/// has ended, and how many bytes are done with.
pub struct Scan {
    pub emit: Option<Seq<u8>>,
    pub remove: int,
}

/// One look at the bytes read so far. Only the longest valid beginning is
/// looked at. The line before its last delimiter is shown unless it is
/// empty, and everything before that delimiter is done with. An invalid
/// sequence behind the valid beginning is done with as well, with all that
/// stands before it. A character that the bytes stop short in is kept.
pub open spec fn scanned(bytes: Seq<u8>) -> Scan {
    let valid = valid_len(bytes);
    let skip = match invalid_len(bytes) {
        Some(n) => Some(valid + n),
        None => None,
    };
    match last_delimiter(bytes.take(valid)) {
        Some(idx) => Scan {
            emit: if line_before(bytes, idx).len() > 0 {
                Some(line_before(bytes, idx))
            } else {
                None
            },
            remove: match skip {
                Some(end) => end,
                None => idx,
            },
        },
        None => Scan {
            emit: None,
            remove: match skip {
                Some(end) => end,
                None => 0,
            },
        },
    }
}

/// The lines to show, in order, and the bytes that are kept, after the
/// bytes read so far have been looked at until nothing more is done with.
pub open spec fn decoded(bytes: Seq<u8>) -> (Seq<Seq<u8>>, Seq<u8>)
    decreases bytes.len(),
{
    let scan = scanned(bytes);
    let head = match scan.emit {
        Some(line) => seq![line],
        None => Seq::empty(),
    };
    if 0 < scan.remove <= bytes.len() {
        let (lines, rest) = decoded(bytes.skip(scan.remove));
        (head + lines, rest)
    } else {
        (head, bytes)
    }
}

/// The valid beginning of some bytes has one length only.
pub proof fn lemma_valid_len_unique(bytes: Seq<u8>, a: int, b: int)
    requires
        is_valid_len(bytes, a),
        is_valid_len(bytes, b),
    ensures
        a == b,
{
    if a < b {
        assert(!valid_utf8(bytes.take(b)));
    } else if b < a {
        assert(!valid_utf8(bytes.take(a)));
    }
}

/// What stands between two delimiters of valid text, or before its first
/// delimiter, is valid text.
pub proof fn lemma_line_is_text(text: Seq<u8>, from: int, to: int)
    requires
        valid_utf8(text),
        0 <= from <= to < text.len(),
        is_delimiter(text[to]),
        from == 0 || is_delimiter(text[from - 1]),
    ensures
        valid_utf8(text.subrange(from, to)),
{
    is_char_boundary_iff_not_is_continuation_byte(text, to);
    valid_utf8_split(text, to);
    let head = text.subrange(0, to);
    if from == 0 {
    } else {
        assert(head[from - 1] == text[from - 1]);
        is_char_boundary_iff_not_is_continuation_byte(head, from - 1);
        valid_utf8_split(head, from - 1);
        let tail = head.subrange(from - 1, to);
        assert(tail[0] == text[from - 1]);
        assert(valid_utf8(tail));
        assert(vstd::utf8::pop_first_scalar(tail) =~= text.subrange(from, to));
    }
}

/// A reader of lines that takes the bytes of a stream as they come, in
/// chunks that may end in the middle of a character.
#[derive(Debug)]
pub struct LineDecoder {
    /// The bytes that are not done with yet.
    pub bytes: Vec<u8>,
}

impl LineDecoder {
    /// A reader that has read nothing.
    pub fn new() -> (r: Self)
        ensures
            r.bytes@.len() == 0,
    {
        Self { bytes: Vec::new() }
    }

    /// Reads a chunk, and returns the lines that have ended and are to be
    /// shown, in order.
    #[verifier::rlimit(40)]
    pub fn feed(&mut self, chunk: &[u8]) -> (r: Vec<String>)
        ensures
            final(self).bytes@ == decoded(old(self).bytes@ + chunk@).1,
            r@.len() == decoded(old(self).bytes@ + chunk@).0.len(),
            forall|i: int|
                0 <= i < r@.len() ==> valid_utf8(
                    #[trigger] decoded(old(self).bytes@ + chunk@).0[i],
                ),
            forall|i: int|
                0 <= i < r@.len() ==> (#[trigger] r@[i])@ == decode_utf8(
                    decoded(old(self).bytes@ + chunk@).0[i],
                ),
    {
        let mut i: usize = 0;
        while i < chunk.len()
            invariant
                i <= chunk.len(),
                self.bytes@ == old(self).bytes@ + chunk@.take(i as int),
            decreases chunk.len() - i,
        {
            self.bytes.push(chunk[i]);
            assert(self.bytes@ =~= old(self).bytes@ + chunk@.take(i + 1));
            i += 1;
        }
        proof {
            assert(chunk@.take(i as int) =~= chunk@);
        }
        let ghost all = self.bytes@;
        let mut lines: Vec<String> = Vec::new();
        let ghost mut shown: Seq<Seq<u8>> = Seq::empty();
        proof {
            assert(shown + decoded(all).0 =~= decoded(all).0);
        }
        loop
            invariant_except_break
                is_text_of(lines@, shown),
                decoded(all).0 == shown + decoded(self.bytes@).0,
                decoded(all).1 == decoded(self.bytes@).1,
            ensures
                is_text_of(lines@, decoded(all).0),
                self.bytes@ == decoded(all).1,
            decreases self.bytes@.len(),
        {
            let ghost current = self.bytes@;
            let ghost had = shown;
            let ghost texts = lines@;
            let (emit, remove) = scan(self.bytes.as_slice());
            proof {
                lemma_decoded_unfold(current);
            }
            match emit {
                Some(text) => {
                    lines.push(text);
                    proof {
                        shown = had.push(scanned(current).emit->0);
                        lemma_text_push(texts, had, text, scanned(current).emit->0);
                    }
                },
                None => {},
            }
            if remove == 0 {
                proof {
                    assert(had + decoded(current).0 =~= shown);
                    assert(decoded(all).0 == shown);
                    assert(decoded(all).1 == current);
                }
                break ;
            }
            let rest = self.bytes.split_off(remove);
            self.bytes = rest;
            proof {
                assert(self.bytes@ =~= current.skip(remove as int));
                assert(had + decoded(current).0 =~= shown + decoded(self.bytes@).0);
            }
        }
        lines
    }
}

/// Whether `texts` are the texts that `lines` spell, each of which is valid.
pub open spec fn is_text_of(texts: Seq<String>, lines: Seq<Seq<u8>>) -> bool {
    &&& texts.len() == lines.len()
    &&& forall|k: int| 0 <= k < lines.len() ==> valid_utf8(#[trigger] lines[k])
    &&& forall|k: int| 0 <= k < lines.len() ==> (#[trigger] texts[k])@ == decode_utf8(lines[k])
}

/// One more text for one more line.
proof fn lemma_text_push(texts: Seq<String>, lines: Seq<Seq<u8>>, text: String, line: Seq<u8>)
    requires
        is_text_of(texts, lines),
        valid_utf8(line),
        text@ == decode_utf8(line),
    ensures
        is_text_of(texts.push(text), lines.push(line)),
{
    let t = texts.push(text);
    let l = lines.push(line);
    assert forall|k: int| 0 <= k < l.len() implies valid_utf8(#[trigger] l[k]) by {
        if k < lines.len() {
            assert(l[k] == lines[k]);
        }
    }
    assert forall|k: int| 0 <= k < l.len() implies (#[trigger] t[k])@ == decode_utf8(l[k]) by {
        if k < lines.len() {
            assert(t[k] == texts[k]);
            assert(l[k] == lines[k]);
        }
    }
}

/// What looking at the bytes until nothing more is done with gives, said in
/// one step: the line of the first look, then what the bytes that are left
/// give.
proof fn lemma_decoded_unfold(bytes: Seq<u8>)
    ensures
        decoded(bytes) == ({
            let scan = scanned(bytes);
            let head = match scan.emit {
                Some(line) => seq![line],
                None => Seq::<Seq<u8>>::empty(),
            };
            if 0 < scan.remove <= bytes.len() {
                (head + decoded(bytes.skip(scan.remove)).0, decoded(bytes.skip(scan.remove)).1)
            } else {
                (head, bytes)
            }
        }),
{
}

/// One look at the bytes read so far: the line to show, if one has ended,
/// and how many bytes are done with.
#[verifier::rlimit(40)]
fn scan(bytes: &[u8]) -> (r: (Option<String>, usize))
    ensures
        r.1 == scanned(bytes@).remove,
        r.1 <= bytes@.len(),
        match r.0 {
            Some(text) => scanned(bytes@).emit matches Some(line) && valid_utf8(line) && text@
                == decode_utf8(line),
            None => scanned(bytes@).emit is None,
        },
{
    let ghost current = bytes@;
    let len: usize = bytes.len();
    let (valid, error) = utf8_scan(bytes);
    proof {
        lemma_valid_len_unique(current, valid as int, valid_len(current));
    }
    let skip: Option<usize> = match error {
        Some(n) => Some(valid + n),
        None => None,
    };
    let idx: usize = match find_last_delimiter(bytes, valid) {
        Some(idx) => idx,
        None => {
            return (
                None,
                match skip {
                    Some(end) => end,
                    None => 0,
                },
            );
        },
    };
    let remove: usize = match skip {
        Some(end) => end,
        None => idx,
    };
    let line_start: usize = match find_last_delimiter(bytes, idx) {
        Some(start) => start + 1,
        None => 0,
    };
    proof {
        assert(current.take(valid as int).take(idx as int) =~= current.take(idx as int));
    }
    if line_start >= idx {
        assert(line_before(current, idx as int).len() == 0);
        return (None, remove);
    }
    let line = vstd::slice::slice_subrange(bytes, line_start, idx);
    proof {
        lemma_last_delimiter(current.take(valid as int));
        lemma_last_delimiter(current.take(idx as int));
        assert(current.take(valid as int)[idx as int] == current[idx as int]);
        if line_start > 0 {
            assert(current.take(idx as int)[line_start - 1] == current[line_start - 1]);
        }
        lemma_line_of(current, valid as int, line_start as int, idx as int);
        assert(line@ =~= line_before(current, idx as int));
    }
    let text = lossy_text(line);
    (Some(text), remove)
}

/// The line before the last delimiter of the valid beginning of some bytes
/// is valid text.
proof fn lemma_line_of(bytes: Seq<u8>, valid: int, from: int, to: int)
    requires
        0 <= from < to < valid <= bytes.len(),
        valid_utf8(bytes.take(valid)),
        is_delimiter(bytes[to]),
        from == 0 || is_delimiter(bytes[from - 1]),
    ensures
        valid_utf8(bytes.subrange(from, to)),
{
    let text = bytes.take(valid);
    assert(text[to] == bytes[to]);
    if from > 0 {
        assert(text[from - 1] == bytes[from - 1]);
    }
    lemma_line_is_text(text, from, to);
    assert(text.subrange(from, to) =~= bytes.subrange(from, to));
}

} // verus!
