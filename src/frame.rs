//! Request framing: recognising one complete frame (a command line, or a
//! command line and a data line) at a position of a byte buffer.

use vstd::prelude::*;
use vstd::slice::{slice_subrange, slice_to_vec};
use vstd::utf8::encode_utf8;

verus! {

/// Why no frame could be taken from the buffered bytes.
#[derive(Debug, PartialEq, Eq, Structural)]
pub enum FrameError {
    /// Not enough bytes are buffered yet: read more and try again.
    Incomplete,
    /// The peer closed the stream in the middle of a frame.
    ConnectionReset,
}

/// Storage commands use two lines: the command line and a raw data line.
#[derive(Debug)]
pub struct StorageFrame {
    pub command_line: Vec<u8>,
    pub data: Vec<u8>,
}

/// One request frame, terminators removed.
#[derive(Debug)]
pub enum RequestFrame {
    Storage(StorageFrame),
    Other(Vec<u8>),
}

/// The contents of a request frame.
pub enum RequestFrameView {
    Storage { command_line: Seq<u8>, data: Seq<u8> },
    Other(Seq<u8>),
}

impl View for RequestFrame {
    type V = RequestFrameView;

    open spec fn view(&self) -> RequestFrameView {
        match self {
            RequestFrame::Storage(f) => RequestFrameView::Storage {
                command_line: f.command_line@,
                data: f.data@,
            },
            RequestFrame::Other(line) => RequestFrameView::Other(line@),
        }
    }
}

/// A `"\r\n"` terminator starts at index `i` of `s`.
pub open spec fn crlf_at(s: Seq<u8>, i: int) -> bool {
    &&& 0 <= i
    &&& i + 1 < s.len()
    &&& s[i] == 13u8  // '\r'
    &&& s[i + 1] == 10u8  // '\n'
}

/// The index of the first terminator of `s` at or after `i`.
pub open spec fn find_crlf(s: Seq<u8>, i: int) -> Option<int>
    decreases s.len() - i,
{
    if i < 0 || i + 1 >= s.len() {
        None
    } else if crlf_at(s, i) {
        Some(i)
    } else {
        find_crlf(s, i + 1)
    }
}

/// Leading bytes of the storage commands (set, add, replace, append,
/// prepend, cas), which are framed as two lines.
pub open spec fn is_storage_byte(b: u8) -> bool {
    // 's', 'a', 'r', 'p', 'c'
    b == 115u8 || b == 97u8 || b == 114u8 || b == 112u8 || b == 99u8
}

/// The frame that starts at `start` of `s`, and the index just past it; `None`
/// while it is incomplete.
pub open spec fn frame_at(s: Seq<u8>, start: int) -> Option<(RequestFrameView, int)> {
    if 0 <= start < s.len() {
        match find_crlf(s, start) {
            None => None,
            Some(i) => if is_storage_byte(s[start]) {
                match find_crlf(s, i + 2) {
                    None => None,
                    Some(j) => Some(
                        (
                            RequestFrameView::Storage {
                                command_line: s.subrange(start, i),
                                data: s.subrange(i + 2, j),
                            },
                            j + 2,
                        ),
                    ),
                }
            } else {
                Some((RequestFrameView::Other(s.subrange(start, i)), i + 2))
            },
        }
    } else {
        None
    }
}

proof fn lemma_find_crlf_bounds(s: Seq<u8>, i: int)
    ensures
        match find_crlf(s, i) {
            Some(j) => i <= j && crlf_at(s, j),
            None => true,
        },
    decreases s.len() - i,
{
    if 0 <= i && i + 1 < s.len() && !crlf_at(s, i) {
        lemma_find_crlf_bounds(s, i + 1);
    }
}

/// The index of the first terminator at or after `start`.
fn find_line_end(src: &[u8], start: usize) -> (r: Option<usize>)
    requires
        start <= src@.len(),
    ensures
        match r {
            Some(i) => find_crlf(src@, start as int) == Some(i as int),
            None => find_crlf(src@, start as int) is None,
        },
        src@.len() <= usize::MAX,
{
    let len = src.len();
    if len == 0 {
        return None;
    }
    let end = len - 1;
    let mut i: usize = start;
    while i < end
        invariant
            start <= i,
            start <= src@.len(),
            end + 1 == src@.len(),
            find_crlf(src@, start as int) == find_crlf(src@, i as int),
        decreases end - i,
    {
        if src[i] == 13u8 && src[i + 1] == 10u8 {
            assert(crlf_at(src@, i as int));
            return Some(i);
        }
        i += 1;
    }
    None
}

/// Takes the line that starts at `*pos`, leaving `*pos` just past its terminator.
fn get_line<'a>(src: &'a [u8], pos: &mut usize) -> (r: Result<&'a [u8], FrameError>)
    requires
        *old(pos) <= src@.len(),
    ensures
        match find_crlf(src@, *old(pos) as int) {
            Some(i) => {
                &&& r matches Ok(line)
                &&& line@ == src@.subrange(*old(pos) as int, i)
                &&& *final(pos) == i + 2
            },
            None => r == Err::<&[u8], FrameError>(FrameError::Incomplete) && *final(pos) == *old(pos),
        },
{
    let start = *pos;
    proof {
        lemma_find_crlf_bounds(src@, start as int);
    }
    match find_line_end(src, start) {
        Some(i) => {
            *pos = i + 2;
            Ok(slice_subrange(src, start, i))
        },
        None => Err(FrameError::Incomplete),
    }
}

/// Whether `b` leads a two-line storage command.
fn is_storage(b: u8) -> (r: bool)
    ensures
        r == is_storage_byte(b),
{
    b == 115u8 || b == 97u8 || b == 114u8 || b == 112u8 || b == 99u8
}

/// The byte at `pos`, which is not consumed.
fn get_first_byte(src: &[u8], pos: usize) -> (r: Result<u8, FrameError>)
    ensures
        pos < src@.len() ==> r == Ok::<u8, FrameError>(src@[pos as int]),
        pos >= src@.len() ==> r == Err::<u8, FrameError>(FrameError::Incomplete),
{
    if pos >= src.len() {
        return Err(FrameError::Incomplete);
    }
    Ok(src[pos])
}

impl RequestFrame {
    /// Checks, without allocating, whether a whole frame starts at `*pos`; on
    /// success `*pos` is left just past it, else it is unchanged.
    pub fn check(src: &[u8], pos: &mut usize) -> (r: Result<(), FrameError>)
        requires
            *old(pos) <= src@.len(),
        ensures
            match frame_at(src@, *old(pos) as int) {
                Some((_, end)) => r is Ok && *final(pos) == end,
                None => r == Err::<(), FrameError>(FrameError::Incomplete) && *final(pos) == *old(pos),
            },
    {
        let start = *pos;
        let first = get_first_byte(src, start)?;
        let mut p = start;
        proof {
            lemma_find_crlf_bounds(src@, start as int);
        }
        get_line(src, &mut p)?;
        if is_storage(first) {
            get_line(src, &mut p)?;
        }
        *pos = p;
        Ok(())
    }

    /// Takes the whole frame that starts at `*pos`, copying its lines; on
    /// success `*pos` is left just past it, else it is unchanged.
    pub fn parse(src: &[u8], pos: &mut usize) -> (r: Result<RequestFrame, FrameError>)
        requires
            *old(pos) <= src@.len(),
        ensures
            match frame_at(src@, *old(pos) as int) {
                Some((frame, end)) => {
                    &&& r matches Ok(f)
                    &&& f@ == frame
                    &&& *final(pos) == end
                },
                None => r == Err::<RequestFrame, FrameError>(FrameError::Incomplete)
                    && *final(pos) == *old(pos),
            },
    {
        let start = *pos;
        let first = get_first_byte(src, start)?;
        let mut p = start;
        proof {
            lemma_find_crlf_bounds(src@, start as int);
        }
        let line = get_line(src, &mut p)?;
        if is_storage(first) {
            let data = get_line(src, &mut p)?;
            *pos = p;
            Ok(RequestFrame::Storage(StorageFrame { command_line: slice_to_vec(line), data: slice_to_vec(data) }))
        } else {
            *pos = p;
            Ok(RequestFrame::Other(slice_to_vec(line)))
        }
    }
}

/// A response, written to the client as one or more CRLF-terminated lines.
#[derive(Debug)]
pub enum ResponseFrame {
    Value { key: String, flags: u32, data_length: usize, cas: Option<u64>, data: Vec<u8> },
    /// Result of an increment or decrement.
    Crement(usize),
    Deleted,
    Stored,
    Touched,
    NotFound,
    NotStored,
    Exists,
    ClientError(String),
    ServerError(String),
    Error,
}

/// The decimal digits of `n`, most significant first, without leading zeros.
pub open spec fn decimal(n: nat) -> Seq<u8>
    decreases n,
{
    if n < 10 {
        seq![(48 + n) as u8]
    } else {
        decimal(n / 10).push((48 + n % 10) as u8)
    }
}

/// The line terminator.
pub open spec fn crlf() -> Seq<u8> {
    seq![13u8, 10u8]  // "\r\n"
}

/// The line that closes a retrieval response.
pub open spec fn end_line() -> Seq<u8> {
    seq![69u8, 78u8, 68u8, 13u8, 10u8]  // "END\r\n"
}

/// A `VALUE` response: the word, the key, the flags, the data length and the
/// optional version, then the terminator, the data and the terminator.
pub open spec fn value_bytes(
    key: Seq<char>,
    flags: u32,
    data_length: nat,
    cas: Option<u64>,
    data: Seq<u8>,
) -> Seq<u8> {
    seq![86u8, 65u8, 76u8, 85u8, 69u8] + encode_utf8(key) + decimal(flags as nat) + decimal(data_length)  // "VALUE"
        + match cas {
        Some(c) => decimal(c as nat),
        None => Seq::empty(),
    } + crlf() + data + crlf()
}

impl ResponseFrame {
    /// The bytes of this response on the wire.
    pub open spec fn bytes(&self) -> Seq<u8> {
        match self {
            ResponseFrame::Value { key, flags, data_length, cas, data } => value_bytes(
                key@,
                *flags,
                *data_length as nat,
                *cas,
                data@,
            ),
            ResponseFrame::Crement(v) => decimal(*v as nat) + crlf(),
            ResponseFrame::Deleted => seq![68u8, 69u8, 76u8, 69u8, 84u8, 69u8, 68u8] + crlf(),  // "DELETED"
            ResponseFrame::Stored => seq![83u8, 84u8, 79u8, 82u8, 69u8, 68u8] + crlf(),  // "STORED"
            ResponseFrame::Touched => seq![84u8, 79u8, 85u8, 67u8, 72u8, 69u8, 68u8] + crlf(),  // "TOUCHED"
            ResponseFrame::NotFound => seq![78u8, 79u8, 84u8, 95u8, 70u8, 79u8, 85u8, 78u8, 68u8] + crlf(),  // "NOT_FOUND"
            ResponseFrame::NotStored => seq![78u8, 79u8, 84u8, 95u8, 83u8, 84u8, 79u8, 82u8, 69u8, 68u8]  // "NOT_STORED"
                + crlf(),
            ResponseFrame::Exists => seq![69u8, 88u8, 73u8, 83u8, 84u8, 83u8] + crlf(),  // "EXISTS"
            ResponseFrame::ClientError(m) => seq![67u8, 76u8, 73u8, 69u8, 78u8, 84u8, 95u8, 69u8, 82u8, 82u8, 79u8, 82u8, 32u8] + encode_utf8(m@) + crlf(),  // "CLIENT_ERROR "
            ResponseFrame::ServerError(m) => seq![83u8, 69u8, 82u8, 86u8, 69u8, 82u8, 95u8, 69u8, 82u8, 82u8, 79u8, 82u8, 32u8] + encode_utf8(m@) + crlf(),  // "SERVER_ERROR "
            ResponseFrame::Error => seq![69u8, 82u8, 82u8, 79u8, 82u8] + crlf(),  // "ERROR"
        }
    }

    /// Appends the bytes of this response to `out`.
    pub fn encode(&self, out: &mut Vec<u8>)
        ensures
            final(out)@ == old(out)@ + self.bytes(),
    {
        let ghost start = out@;
        match self {
            ResponseFrame::Value { key, flags, data_length, cas, data } => {
                push_bytes(out, &[86u8, 65u8, 76u8, 85u8, 69u8]);  // "VALUE"
                push_bytes(out, key.as_str().as_bytes());
                push_decimal(out, *flags as u64);
                push_decimal(out, *data_length as u64);
                if let Some(c) = cas {
                    push_decimal(out, *c);
                }
                push_bytes(out, &[13u8, 10u8]);  // "\r\n"
                push_bytes(out, data.as_slice());
            },
            ResponseFrame::Crement(v) => push_decimal(out, *v as u64),
            ResponseFrame::ClientError(m) => {
                push_bytes(out, &[67u8, 76u8, 73u8, 69u8, 78u8, 84u8, 95u8, 69u8, 82u8, 82u8, 79u8, 82u8, 32u8]);  // "CLIENT_ERROR "
                push_bytes(out, m.as_str().as_bytes());
            },
            ResponseFrame::ServerError(m) => {
                push_bytes(out, &[83u8, 69u8, 82u8, 86u8, 69u8, 82u8, 95u8, 69u8, 82u8, 82u8, 79u8, 82u8, 32u8]);  // "SERVER_ERROR "
                push_bytes(out, m.as_str().as_bytes());
            },
            ResponseFrame::Deleted => push_bytes(out, &[68u8, 69u8, 76u8, 69u8, 84u8, 69u8, 68u8]),  // "DELETED"
            ResponseFrame::Stored => push_bytes(out, &[83u8, 84u8, 79u8, 82u8, 69u8, 68u8]),  // "STORED"
            ResponseFrame::NotStored => push_bytes(out, &[78u8, 79u8, 84u8, 95u8, 83u8, 84u8, 79u8, 82u8, 69u8, 68u8]),  // "NOT_STORED"
            ResponseFrame::Touched => push_bytes(out, &[84u8, 79u8, 85u8, 67u8, 72u8, 69u8, 68u8]),  // "TOUCHED"
            ResponseFrame::Exists => push_bytes(out, &[69u8, 88u8, 73u8, 83u8, 84u8, 83u8]),  // "EXISTS"
            ResponseFrame::NotFound => push_bytes(out, &[78u8, 79u8, 84u8, 95u8, 70u8, 79u8, 85u8, 78u8, 68u8]),  // "NOT_FOUND"
            ResponseFrame::Error => push_bytes(out, &[69u8, 82u8, 82u8, 79u8, 82u8]),  // "ERROR"
        }
        // All responses end in a line terminator.
        push_bytes(out, &[13u8, 10u8]);  // "\r\n"
        assert(out@ =~= start + self.bytes());
    }
}

/// Appends the line that closes a retrieval response.
pub fn push_end(out: &mut Vec<u8>)
    ensures
        final(out)@ == old(out)@ + end_line(),
{
    push_bytes(out, &[69u8, 78u8, 68u8, 13u8, 10u8]);  // "END\r\n"
}

/// Appends `bytes` to `out`.
fn push_bytes(out: &mut Vec<u8>, bytes: &[u8])
    ensures
        final(out)@ == old(out)@ + bytes@,
{
    let ghost start = out@;
    let mut i: usize = 0;
    while i < bytes.len()
        invariant
            i <= bytes@.len(),
            out@ == start + bytes@.subrange(0, i as int),
        decreases bytes@.len() - i,
    {
        out.push(bytes[i]);
        i += 1;
        assert(out@ =~= start + bytes@.subrange(0, i as int));
    }
    assert(bytes@.subrange(0, i as int) =~= bytes@);
}

/// Appends the decimal digits of `n` to `out`.
fn push_decimal(out: &mut Vec<u8>, n: u64)
    ensures
        final(out)@ == old(out)@ + decimal(n as nat),
    decreases n,
{
    let ghost start = out@;
    if n >= 10 {
        push_decimal(out, n / 10);
    }
    out.push(48u8 + (n % 10) as u8);
    if n >= 10 {
        assert(out@ =~= start + decimal(n as nat));
    } else {
        assert(out@ =~= start + decimal(n as nat));
    }
}

} // verus!
