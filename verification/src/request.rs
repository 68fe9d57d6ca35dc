//! The request line: one selector, ended by CR LF, read from a buffer that
//! may hold only part of it yet.

use crate::buffer::{as_slice, contents};
use bytes::BytesMut;
use std::str::Utf8Error;
use vstd::prelude::*;
use vstd::utf8::{encode_utf8, valid_utf8};

verus! {

pub const CR: u8 = 0x0d;

pub const LF: u8 = 0x0a;

pub const TAB: u8 = 0x09;

pub const NUL: u8 = 0x00;

/// What a client asks for.
#[derive(Debug)]
pub struct Request {
    pub selector: String,
}

#[derive(Debug)]
pub enum RequestError {
    /// The transport failed. The decoder itself never reports this.
    Io(std::io::Error),
    /// The selector is not UTF-8.
    Utf8(Utf8Error),
    /// More bytes than the decoder allows arrived without a line end.
    TooLong,
    /// The selector holds a byte that no selector may hold, or the stream
    /// ended before the line did.
    InvalidSelector(String),
}

impl RequestError {
    /// The error for a stream that ended before the line did.
    pub fn missing_terminator() -> (error: RequestError)
        ensures
            error matches RequestError::InvalidSelector(msg) && msg@ == "missing terminator"@,
    {
        RequestError::InvalidSelector("missing terminator".to_owned())
    }
}

/// The bytes that may not occur in a selector.
pub open spec fn is_forbidden(b: u8) -> bool {
    b == CR || b == LF || b == TAB || b == NUL
}

/// What two neighbouring bytes tell about the line.
#[derive(Debug, Copy, Clone, PartialEq, Eq, Structural)]
pub enum Window {
    /// CR LF: the line ends here.
    Terminator,
    /// A forbidden byte that is no part of a line end. A CR in second place
    /// is left to the next window, which sees what follows it.
    Forbidden,
    Neither,
}

pub open spec fn classify(first: u8, second: u8) -> Window {
    if first == CR && second == LF {
        Window::Terminator
    } else if is_forbidden(first) || (is_forbidden(second) && second != CR) {
        Window::Forbidden
    } else {
        Window::Neither
    }
}

/// The lowest offset at or after `from` of a window inside `s[..end]` that
/// is not `Neither`.
pub open spec fn first_decisive(s: Seq<u8>, from: int, end: int) -> Option<int>
    decreases end - from,
{
    if from + 1 >= end {
        None
    } else if classify(s[from], s[from + 1]) != Window::Neither {
        Some(from)
    } else {
        first_decisive(s, from + 1, end)
    }
}

/// How far into a buffer of `len` bytes the decoder looks: a selector of
/// `max_length` bytes and its line end.
pub open spec fn scan_end(len: int, max_length: int) -> int {
    if max_length + 2 <= len {
        max_length + 2
    } else {
        len
    }
}

/// What one call of the decoder does on a buffer.
pub enum Step {
    /// Too little is buffered to decide; nothing is consumed.
    NeedMore,
    /// The buffer outgrew the limit without a line end; nothing is consumed.
    TooLong,
    /// A forbidden byte in the window at `offset`; nothing is consumed.
    Invalid { offset: int },
    /// A line ended, but its bytes are not UTF-8; the line is consumed.
    BadUtf8 { consumed: int },
    /// A line ended; the line is consumed.
    Line { selector: Seq<u8>, consumed: int },
}

pub open spec fn step(s: Seq<u8>, max_length: int) -> Step {
    match first_decisive(s, 0, scan_end(s.len() as int, max_length)) {
        Some(i) => if classify(s[i], s[i + 1]) == Window::Terminator {
            if valid_utf8(s.subrange(0, i)) {
                Step::Line { selector: s.subrange(0, i), consumed: i + 2 }
            } else {
                Step::BadUtf8 { consumed: i + 2 }
            }
        } else {
            Step::Invalid { offset: i }
        },
        None => if s.len() > max_length {
            Step::TooLong
        } else {
            Step::NeedMore
        },
    }
}

/// Whether `result`, the decoder's state and the bytes left in the buffer are
/// what a call on a buffer holding `before` gives when `step` is `taken`.
pub open spec fn decoded(
    taken: Step,
    before: Seq<u8>,
    result: Result<Option<Request>, RequestError>,
    finished: bool,
    after: Seq<u8>,
) -> bool {
    match taken {
        Step::NeedMore => {
            &&& result matches Ok(None)
            &&& !finished
            &&& after == before
        },
        Step::TooLong => {
            &&& result matches Err(RequestError::TooLong)
            &&& finished
            &&& after == before
        },
        Step::Invalid { offset } => {
            &&& result matches Err(RequestError::InvalidSelector(msg))
            &&& msg@ == invalid_selector_message(before, offset)
            &&& !finished
            &&& after == before
        },
        Step::BadUtf8 { consumed } => {
            &&& result matches Err(RequestError::Utf8(_))
            &&& finished
            &&& after == before.skip(consumed)
        },
        Step::Line { selector, consumed } => {
            &&& result matches Ok(Some(request))
            &&& encode_utf8(request.selector@) == selector
            &&& finished
            &&& after == before.skip(consumed)
        },
    }
}

/// The text of the error for a forbidden byte, as `format!` renders
/// `"selector {:?} contains invalid characters at {}"` from the lossy UTF-8
/// reading of the buffer and the window's offset.
pub uninterp spec fn invalid_selector_message(buf: Seq<u8>, offset: int) -> Seq<char>;

/// `String::from_utf8_lossy` and `format!` build the message from the
/// buffer's bytes and the offset, and from nothing else.
#[verifier::external_body]
fn describe_invalid_selector(buf: &[u8], offset: usize) -> (msg: String)
    ensures
        msg@ == invalid_selector_message(buf@, offset as int),
{
    format!("selector {:?} contains invalid characters at {}", String::from_utf8_lossy(buf), offset)
}

fn classify_window(first: u8, second: u8) -> (w: Window)
    ensures
        w == classify(first, second),
{
    if first == CR && second == LF {
        Window::Terminator
    } else if first == CR || first == LF || first == TAB || first == NUL || second == LF || second
        == TAB || second == NUL {
        Window::Forbidden
    } else {
        Window::Neither
    }
}

/// Reads the one request line of a connection.
pub struct RequestDecoder {
    max_length: usize,
    finished: bool,
}

impl RequestDecoder {
    /// The longest selector accepted, in bytes.
    pub closed spec fn max_length(&self) -> usize {
        self.max_length
    }

    /// Whether the decoder has given its one result: a line was consumed, or
    /// the buffer outgrew the limit.
    pub closed spec fn finished(&self) -> bool {
        self.finished
    }

    pub fn with_max_length(max_length: usize) -> (decoder: RequestDecoder)
        ensures
            decoder.max_length() == max_length,
            !decoder.finished(),
    {
        RequestDecoder { max_length, finished: false }
    }

    pub fn is_finished(&self) -> (b: bool)
        ensures
            b == self.finished(),
    {
        self.finished
    }

    /// Looks for the request line at the front of `buf`, as `step` says.
    pub fn decode(&mut self, buf: &mut BytesMut) -> (result: Result<Option<Request>, RequestError>)
        requires
            !old(self).finished(),
        ensures
            final(self).max_length() == old(self).max_length(),
            decoded(
                step(contents(*old(buf)), old(self).max_length() as int),
                contents(*old(buf)),
                result,
                final(self).finished(),
                contents(*final(buf)),
            ),
    {
        let len = buf.len();
        let read_to = if self.max_length <= usize::MAX - 2 && self.max_length + 2 <= len {
            self.max_length + 2
        } else {
            len
        };
        let ghost s = contents(*buf);
        let bytes = as_slice(buf);
        let mut i: usize = 0;
        let mut found = Window::Neither;
        while read_to - i > 1
            invariant_except_break
                found == Window::Neither,
            invariant
                i <= read_to <= len,
                len == s.len(),
                bytes@ == s,
                first_decisive(s, 0, read_to as int) == first_decisive(s, i as int, read_to as int),
            ensures
                read_to <= len,
                found == Window::Neither ==> first_decisive(s, 0, read_to as int) is None,
                found != Window::Neither ==> i + 1 < read_to && first_decisive(
                    s,
                    0,
                    read_to as int,
                ) == Some(i as int) && found == classify(s[i as int], s[i + 1]),
            decreases read_to - i,
        {
            let w = classify_window(bytes[i], bytes[i + 1]);
            if w != Window::Neither {
                found = w;
                break ;
            }
            i += 1;
        }
        match found {
            Window::Terminator => {
                let line = buf.split_to(i);
                let _ = buf.split_to(2);
                self.finished = true;
                assert(contents(*buf) == s.skip(i + 2));
                match core::str::from_utf8(as_slice(&line)) {
                    Ok(text) => Ok(Some(Request { selector: text.to_owned() })),
                    Err(e) => Err(RequestError::Utf8(e)),
                }
            },
            Window::Forbidden => Err(
                RequestError::InvalidSelector(describe_invalid_selector(bytes, i)),
            ),
            Window::Neither => {
                if len > self.max_length {
                    self.finished = true;
                    Err(RequestError::TooLong)
                } else {
                    Ok(None)
                }
            },
        }
    }

    /// As `decode`, for a stream that has ended: where `decode` would ask for
    /// more bytes, the line can no longer be completed, and that is an error.
    pub fn decode_eof(&mut self, buf: &mut BytesMut) -> (result: Result<
        Option<Request>,
        RequestError,
    >)
        requires
            !old(self).finished(),
        ensures
            final(self).max_length() == old(self).max_length(),
            step(contents(*old(buf)), old(self).max_length() as int) is NeedMore ==> {
                &&& result matches Err(RequestError::InvalidSelector(msg))
                &&& msg@ == "missing terminator"@
                &&& !final(self).finished()
                &&& contents(*final(buf)) == contents(*old(buf))
            },
            !(step(contents(*old(buf)), old(self).max_length() as int) is NeedMore) ==> decoded(
                step(contents(*old(buf)), old(self).max_length() as int),
                contents(*old(buf)),
                result,
                final(self).finished(),
                contents(*final(buf)),
            ),
    {
        match self.decode(buf) {
            Ok(None) => Err(RequestError::missing_terminator()),
            other => other,
        }
    }
}

/// What `first_decisive` finds is a decisive window with none before it, and
/// where it finds nothing there is none.
pub proof fn lemma_first_decisive(s: Seq<u8>, from: int, end: int)
    requires
        0 <= from,
    ensures
        match first_decisive(s, from, end) {
            Some(i) => {
                &&& from <= i
                &&& i + 1 < end
                &&& classify(s[i], s[i + 1]) != Window::Neither
                &&& forall|k: int| from <= k < i ==> classify(s[k], #[trigger] s[k + 1]) == Window::Neither
            },
            None => forall|k: int|
                from <= k && k + 1 < end ==> classify(s[k], #[trigger] s[k + 1]) == Window::Neither,
        },
    decreases end - from,
{
    if from + 1 < end && classify(s[from], s[from + 1]) == Window::Neither {
        lemma_first_decisive(s, from + 1, end);
    }
}

/// A decisive window with none before it is the one that `first_decisive`
/// finds.
pub proof fn lemma_first_decisive_at(s: Seq<u8>, from: int, end: int, i: int)
    requires
        0 <= from <= i,
        i + 1 < end,
        classify(s[i], s[i + 1]) != Window::Neither,
        forall|k: int| from <= k < i ==> classify(s[k], #[trigger] s[k + 1]) == Window::Neither,
    ensures
        first_decisive(s, from, end) == Some(i),
    decreases i - from,
{
    if from < i {
        assert(classify(s[from], s[from + 1]) == Window::Neither);
        lemma_first_decisive_at(s, from + 1, end, i);
    }
}

/// A selector of valid UTF-8 without forbidden bytes, no longer than the
/// limit and followed by CR LF, is decoded whole: the step is a line with
/// exactly these bytes, and it consumes them and the two bytes of the line
/// end, whatever follows in the buffer.
pub proof fn lemma_clean_line_decodes(selector: Seq<u8>, rest: Seq<u8>, max_length: int)
    requires
        forall|k: int| 0 <= k < selector.len() ==> !is_forbidden(#[trigger] selector[k]),
        selector.len() <= max_length,
        valid_utf8(selector),
    ensures
        step(selector + seq![CR, LF] + rest, max_length) == (Step::Line {
            selector,
            consumed: selector.len() as int + 2,
        }),
{
    let s = selector + seq![CR, LF] + rest;
    let n = selector.len() as int;
    let end = scan_end(s.len() as int, max_length);
    assert(s[n] == CR && s[n + 1] == LF);
    assert forall|k: int| 0 <= k < n implies classify(s[k], #[trigger] s[k + 1])
        == Window::Neither by {
        assert(s[k] == selector[k]);
        if k + 1 < n {
            assert(s[k + 1] == selector[k + 1]);
        }
    }
    lemma_first_decisive_at(s, 0, end, n);
    assert(s.subrange(0, n) =~= selector);
}

/// A forbidden byte that a window of the scanned range can judge, with no
/// line end before it, makes the step an invalid selector. A CR is judged by
/// the byte after it, so that byte has to be in the range and no LF; any other
/// forbidden byte is judged as soon as two bytes are there.
pub proof fn lemma_forbidden_byte_fails(s: Seq<u8>, max_length: int, j: int)
    requires
        0 <= j < scan_end(s.len() as int, max_length),
        2 <= scan_end(s.len() as int, max_length),
        is_forbidden(s[j]),
        s[j] == CR ==> j + 1 < scan_end(s.len() as int, max_length) && s[j + 1] != LF,
        forall|k: int| 0 <= k < j ==> !(s[k] == CR && #[trigger] s[k + 1] == LF),
    ensures
        step(s, max_length) matches Step::Invalid { offset } && offset <= j,
{
    let end = scan_end(s.len() as int, max_length);
    lemma_first_decisive(s, 0, end);
    if j + 1 < end {
        assert(classify(s[j], s[j + 1]) == Window::Forbidden);
        if first_decisive(s, 0, end) is None {
            assert(classify(s[j], #[trigger] s[j + 1]) == Window::Neither);
        }
    } else {
        assert(classify(s[j - 1], s[j - 1 + 1]) != Window::Neither);
        if first_decisive(s, 0, end) is None {
            assert(classify(s[j - 1], #[trigger] s[j - 1 + 1]) == Window::Neither);
        }
    }
    let i = first_decisive(s, 0, end)->0;
    if i > j {
        assert(classify(s[j], #[trigger] s[j + 1]) == Window::Neither);
    }
    if classify(s[i], s[i + 1]) == Window::Terminator {
        if i < j {
            assert(!(s[i] == CR && #[trigger] s[i + 1] == LF));
        }
    }
}

/// A buffer longer than the limit, in whose scanned range no byte is
/// forbidden, makes the step `TooLong`.
pub proof fn lemma_overlong_fails(s: Seq<u8>, max_length: int)
    requires
        s.len() > max_length,
        forall|k: int|
            0 <= k < scan_end(s.len() as int, max_length) ==> !is_forbidden(#[trigger] s[k]),
    ensures
        step(s, max_length) == Step::TooLong,
{
    let end = scan_end(s.len() as int, max_length);
    lemma_first_decisive(s, 0, end);
    if first_decisive(s, 0, end) is Some {
        let i = first_decisive(s, 0, end)->0;
        assert(!is_forbidden(s[i]));
        assert(!is_forbidden(s[i + 1]));
    }
}

/// Once a forbidden byte has been found, more bytes in the buffer change
/// nothing: the step stays the same invalid selector.
pub proof fn lemma_invalid_stays_invalid(s: Seq<u8>, more: Seq<u8>, max_length: int)
    requires
        step(s, max_length) is Invalid,
    ensures
        step(s + more, max_length) == step(s, max_length),
{
    let end = scan_end(s.len() as int, max_length);
    let t = s + more;
    let end2 = scan_end(t.len() as int, max_length);
    lemma_first_decisive(s, 0, end);
    let i = first_decisive(s, 0, end)->0;
    assert(t[i] == s[i] && t[i + 1] == s[i + 1]);
    assert forall|k: int| 0 <= k < i implies classify(t[k], #[trigger] t[k + 1])
        == Window::Neither by {
        assert(classify(s[k], #[trigger] s[k + 1]) == Window::Neither);
    }
    lemma_first_decisive_at(t, 0, end2, i);
}

} // verus!
