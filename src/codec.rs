use vstd::prelude::*;
use vstd::string::*;
use vstd::utf8::*;
use vstd::slice::slice_subrange;
use crate::text::{
    count_char, decimal, decimal_string, eq_ignore_ascii_case, eq_ignore_case, first_index,
    lemma_first_index, parse_usize, parse_usize_str, same_text, trim, trim_str,
};

verus! {

/// Why a frame could not be read.
#[derive(PartialEq, Eq, Structural, Clone, Copy, Debug)]
pub enum FrameError {
    /// The input ended before the header block or the body was complete.
    UnexpectedEof,
    /// A header line does not split into exactly two space-separated parts.
    MalformedHeader,
    /// The `Content-Length` value is not a decimal size.
    InvalidLength,
    /// The `Content-Type` value names an encoding other than UTF-8.
    InvalidContentType,
    /// The header block ended without a `Content-Length` header.
    MissingLength,
    /// A header line or the body is not well-formed UTF-8.
    InvalidUtf8,
}

impl FrameError {
    /// Every error but a premature end of input says that the data itself is bad.
    pub fn is_data_error(&self) -> (r: bool)
        ensures
            r == !(*self is UnexpectedEof),
    {
        !matches!(self, FrameError::UnexpectedEof)
    }
}

/// What one header line does to the frame being read.
#[derive(PartialEq, Eq, Structural, Clone, Copy, Debug)]
pub enum HeaderStep {
    /// Read the next header line; the payload size known so far.
    Continue(Option<usize>),
    /// The header block is over: read this many payload bytes.
    Body(usize),
    /// The frame cannot be read.
    Fail(FrameError),
}

pub open spec fn content_length_name() -> Seq<char> {
    seq!['c', 'o', 'n', 't', 'e', 'n', 't', '-', 'l', 'e', 'n', 'g', 't', 'h', ':']
}

pub open spec fn content_type_name() -> Seq<char> {
    seq!['c', 'o', 'n', 't', 'e', 'n', 't', '-', 't', 'y', 'p', 'e', ':']
}

pub open spec fn utf8_label() -> Seq<char> {
    seq!['u', 't', 'f', '8']
}

pub open spec fn utf_8_label() -> Seq<char> {
    seq!['u', 't', 'f', '-', '8']
}

/// The effect of one header line (its line break included) on the size read so far.
pub open spec fn header_effect(line: Seq<char>, size: Option<usize>) -> HeaderStep {
    if count_char(line, ' ') != 1 {
        HeaderStep::Fail(FrameError::MalformedHeader)
    } else {
        let i = first_index(line, ' ');
        let name = line.subrange(0, i);
        let value = trim(line.subrange(i + 1, line.len() as int));
        if eq_ignore_ascii_case(name, content_length_name()) {
            match parse_usize(value) {
                Some(n) => HeaderStep::Continue(Some(n)),
                None => HeaderStep::Fail(FrameError::InvalidLength),
            }
        } else if eq_ignore_ascii_case(name, content_type_name()) {
            if value == utf8_label() || value == utf_8_label() {
                HeaderStep::Continue(size)
            } else {
                HeaderStep::Fail(FrameError::InvalidContentType)
            }
        } else {
            HeaderStep::Continue(size)
        }
    }
}

/// The bytes of a blank line, which ends the header block.
pub open spec fn blank_line() -> Seq<u8> {
    seq![13u8, 10u8]
}

/// The effect of one line as read from the stream (up to and including its `\n`;
/// empty at the end of input).
pub open spec fn header_step(size: Option<usize>, line: Seq<u8>) -> HeaderStep {
    if line.len() == 0 {
        HeaderStep::Fail(FrameError::UnexpectedEof)
    } else if line == blank_line() {
        match size {
            Some(n) => HeaderStep::Body(n),
            None => HeaderStep::Fail(FrameError::MissingLength),
        }
    } else if !valid_utf8(line) {
        HeaderStep::Fail(FrameError::InvalidUtf8)
    } else {
        header_effect(decode_utf8(line), size)
    }
}

/// The position just after the first `\n` at or after `pos`, or the end of the input.
pub open spec fn line_end(input: Seq<u8>, pos: int) -> int
    decreases input.len() - pos,
{
    if pos >= input.len() {
        input.len() as int
    } else if input[pos] == 10u8 {
        pos + 1
    } else {
        line_end(input, pos + 1)
    }
}

pub proof fn lemma_line_end_bounds(input: Seq<u8>, pos: int)
    requires
        0 <= pos < input.len(),
    ensures
        pos < line_end(input, pos) <= input.len(),
        forall|j: int| pos <= j < line_end(input, pos) - 1 ==> input[j] != 10u8,
    decreases input.len() - pos,
{
    if input[pos] != 10u8 {
        if pos + 1 < input.len() {
            lemma_line_end_bounds(input, pos + 1);
        } else {
            assert(line_end(input, pos + 1) == input.len());
        }
    }
}

/// The payload of `n` bytes from `start`, decoded, with the position after it.
pub open spec fn body_result(input: Seq<u8>, start: int, n: usize) -> Result<
    (Seq<char>, int),
    FrameError,
> {
    if start + n > input.len() {
        Err(FrameError::UnexpectedEof)
    } else if !valid_utf8(input.subrange(start, start + n)) {
        Err(FrameError::InvalidUtf8)
    } else {
        Ok((decode_utf8(input.subrange(start, start + n)), start + n))
    }
}

/// Reading one frame from `pos`, with `size` the payload size that earlier header
/// lines gave: its payload text and the position after it.
pub open spec fn decode_from(input: Seq<u8>, pos: int, size: Option<usize>) -> Result<
    (Seq<char>, int),
    FrameError,
>
    decreases input.len() - pos,
    via decode_from_decreases
{
    if pos < 0 || pos >= input.len() {
        Err(FrameError::UnexpectedEof)
    } else {
        let end = line_end(input, pos);
        match header_step(size, input.subrange(pos, end)) {
            HeaderStep::Continue(s) => decode_from(input, end, s),
            HeaderStep::Body(n) => body_result(input, end, n),
            HeaderStep::Fail(e) => Err(e),
        }
    }
}

#[via_fn]
proof fn decode_from_decreases(input: Seq<u8>, pos: int, size: Option<usize>) {
    if 0 <= pos < input.len() {
        lemma_line_end_bounds(input, pos);
    }
}

/// Where reading one frame from `pos` stops: just after the frame when it is read
/// whole, else just after the line or payload where the read failed.
pub open spec fn decode_end(input: Seq<u8>, pos: int, size: Option<usize>) -> int
    decreases input.len() - pos,
    via decode_end_decreases
{
    if pos < 0 || pos >= input.len() {
        pos
    } else {
        let end = line_end(input, pos);
        match header_step(size, input.subrange(pos, end)) {
            HeaderStep::Continue(s) => decode_end(input, end, s),
            HeaderStep::Body(n) => if end + n > input.len() {
                input.len() as int
            } else {
                end + n
            },
            HeaderStep::Fail(_) => end,
        }
    }
}

#[via_fn]
proof fn decode_end_decreases(input: Seq<u8>, pos: int, size: Option<usize>) {
    if 0 <= pos < input.len() {
        lemma_line_end_bounds(input, pos);
    }
}

/// A read from inside the input moves forward and stays within the input; a read that
/// succeeds ends where its frame ends.
pub proof fn lemma_decode_end(input: Seq<u8>, pos: int, size: Option<usize>)
    requires
        0 <= pos < input.len(),
    ensures
        pos < decode_end(input, pos, size) <= input.len(),
        decode_from(input, pos, size) matches Ok((_, next)) ==> next == decode_end(
            input,
            pos,
            size,
        ),
    decreases input.len() - pos,
{
    lemma_line_end_bounds(input, pos);
    let end = line_end(input, pos);
    if let HeaderStep::Continue(s) = header_step(size, input.subrange(pos, end)) {
        if end < input.len() {
            lemma_decode_end(input, end, s);
        }
    }
}

/// Reading one frame from the start of `input`.
pub open spec fn decode_frame(input: Seq<u8>) -> Result<(Seq<char>, int), FrameError> {
    decode_from(input, 0, None)
}

/// The text that frames a payload: a `Content-Length` header with the payload's
/// size in bytes, a blank line, then the payload.
pub open spec fn frame_text(payload: Seq<char>) -> Seq<char> {
    seq!['C', 'o', 'n', 't', 'e', 'n', 't', '-', 'L', 'e', 'n', 'g', 't', 'h', ':', ' ']
        + decimal(encode_utf8(payload).len()) + seq!['\r', '\n', '\r', '\n'] + payload
}

/// Relies on `std::str::from_utf8`: it accepts exactly the well-formed UTF-8 byte
/// strings, and decodes them.
#[verifier::external_body]
fn utf8_text(bytes: &[u8]) -> (r: Option<&str>)
    ensures
        r is Some <==> valid_utf8(bytes@),
        r matches Some(s) ==> s@ == decode_utf8(bytes@),
{
    std::str::from_utf8(bytes).ok()
}

/// Frames a payload for the wire.
pub fn frame(payload: &str) -> (r: String)
    ensures
        r@ == frame_text(payload@),
{
    let n = payload.as_bytes().len();
    let digits = decimal_string(n);
    let mut r = String::new();
    r.append("Content-Length: ");
    r.append(digits.as_str());
    r.append("\r\n\r\n");
    r.append(payload);
    proof {
        reveal_strlit("Content-Length: ");
        reveal_strlit("\r\n\r\n");
        assert(r@ =~= frame_text(payload@));
    }
    r
}

/// Applies one header line (its line break included) to the size read so far.
pub fn apply_header(line: &str, size: Option<usize>) -> (r: HeaderStep)
    ensures
        r == header_effect(line@, size),
{
    let n = line.unicode_len();
    let mut count: usize = 0;
    let mut first: usize = 0;
    let mut k: usize = 0;
    while k < n
        invariant
            n == line@.len(),
            k <= n,
            count <= k,
            count == count_char(line@.subrange(0, k as int), ' '),
            count == 0 ==> forall|j: int| 0 <= j < k ==> line@[j] != ' ',
            count > 0 ==> first < k && line@[first as int] == ' ' && forall|j: int|
                0 <= j < first ==> line@[j] != ' ',
        decreases n - k,
    {
        let c = line.get_char(k);
        assert(line@.subrange(0, k + 1).drop_last() =~= line@.subrange(0, k as int));
        if c == ' ' {
            if count == 0 {
                first = k;
            }
            count = count + 1;
        }
        k = k + 1;
    }
    assert(line@.subrange(0, n as int) =~= line@);
    if count != 1 {
        return HeaderStep::Fail(FrameError::MalformedHeader);
    }
    proof {
        lemma_first_index(line@, ' ', first as int);
    }
    let name = line.substring_char(0, first);
    let value = trim_str(line.substring_char(first + 1, n));
    let length_name = "content-length:";
    let kind_name = "content-type:";
    let utf8 = "utf8";
    let utf_8 = "utf-8";
    proof {
        reveal_strlit("content-length:");
        reveal_strlit("content-type:");
        reveal_strlit("utf8");
        reveal_strlit("utf-8");
        assert(length_name@ =~= content_length_name());
        assert(kind_name@ =~= content_type_name());
        assert(utf8@ =~= utf8_label());
        assert(utf_8@ =~= utf_8_label());
    }
    if eq_ignore_case(name, length_name) {
        match parse_usize_str(value) {
            Some(v) => HeaderStep::Continue(Some(v)),
            None => HeaderStep::Fail(FrameError::InvalidLength),
        }
    } else if eq_ignore_case(name, kind_name) {
        if same_text(value, utf8) || same_text(value, utf_8) {
            HeaderStep::Continue(size)
        } else {
            HeaderStep::Fail(FrameError::InvalidContentType)
        }
    } else {
        HeaderStep::Continue(size)
    }
}

/// Applies one line as read from the stream: up to and including its `\n`, or
/// what was left at the end of the input (empty when nothing was).
pub fn read_header_line(size: Option<usize>, line: &[u8]) -> (r: HeaderStep)
    ensures
        r == header_step(size, line@),
{
    if line.len() == 0 {
        return HeaderStep::Fail(FrameError::UnexpectedEof);
    }
    if line.len() == 2 && line[0] == 13u8 && line[1] == 10u8 {
        assert(line@ =~= blank_line());
        return match size {
            Some(n) => HeaderStep::Body(n),
            None => HeaderStep::Fail(FrameError::MissingLength),
        };
    }
    assert(line@ != blank_line()) by {
        if line@ == blank_line() {
            assert(line@[0] == 13u8 && line@[1] == 10u8);
        }
    }
    match utf8_text(line) {
        None => HeaderStep::Fail(FrameError::InvalidUtf8),
        Some(text) => apply_header(text, size),
    }
}

/// Decodes a payload that has been read whole.
pub fn read_body(body: &[u8]) -> (r: Result<String, FrameError>)
    ensures
        r is Ok <==> valid_utf8(body@),
        r matches Ok(s) ==> s@ == decode_utf8(body@),
        r matches Err(e) ==> e == FrameError::InvalidUtf8,
{
    match utf8_text(body) {
        Some(text) => Ok(text.to_owned()),
        None => Err(FrameError::InvalidUtf8),
    }
}

/// The position just after the first `\n` at or after `pos`, or the end of the input.
pub fn find_line_end(input: &[u8], pos: usize) -> (r: usize)
    requires
        pos <= input@.len(),
    ensures
        r == line_end(input@, pos as int),
{
    let mut k = pos;
    while k < input.len() && input[k] != 10u8
        invariant
            pos <= k <= input@.len(),
            line_end(input@, pos as int) == line_end(input@, k as int),
        decreases input@.len() - k,
    {
        k = k + 1;
    }
    if k < input.len() {
        k + 1
    } else {
        k
    }
}

/// The frame result as the spec functions state it.
pub open spec fn frame_view(r: Result<(String, usize), FrameError>) -> Result<
    (Seq<char>, int),
    FrameError,
> {
    match r {
        Ok((text, next)) => Ok((text@, next as int)),
        Err(e) => Err(e),
    }
}

/// Reads one frame from `start`: its payload text, or why it cannot be read, and the
/// position where the read stopped.
pub fn read_message_at(input: &[u8], start: usize) -> (r: (Result<String, FrameError>, usize))
    ensures
        frame_view(
            match r.0 {
                Ok(text) => Ok((text, r.1)),
                Err(e) => Err(e),
            },
        ) == decode_from(input@, start as int, None),
        start < input@.len() ==> r.1 == decode_end(input@, start as int, None),
{
    let mut pos = start;
    let mut size: Option<usize> = None;
    loop
        invariant
            decode_from(input@, start as int, None) == decode_from(input@, pos as int, size),
            start < input@.len() ==> pos < input@.len() && decode_end(input@, start as int, None)
                == decode_end(input@, pos as int, size),
            start >= input@.len() ==> pos == start,
        decreases input@.len() - pos,
    {
        if pos >= input.len() {
            return (Err(FrameError::UnexpectedEof), pos);
        }
        let end = find_line_end(input, pos);
        proof {
            lemma_line_end_bounds(input@, pos as int);
        }
        let line = slice_subrange(input, pos, end);
        match read_header_line(size, line) {
            HeaderStep::Continue(s) => {
                if end >= input.len() {
                    assert(decode_end(input@, end as int, s) == end);
                    return (Err(FrameError::UnexpectedEof), end);
                }
                size = s;
                pos = end;
            },
            HeaderStep::Body(n) => {
                if n > input.len() - end {
                    return (Err(FrameError::UnexpectedEof), input.len());
                }
                let body = slice_subrange(input, end, end + n);
                return (read_body(body), end + n);
            },
            HeaderStep::Fail(e) => {
                return (Err(e), end);
            },
        }
    }
}

/// Reads one frame from the start of `input`: its payload text and the number of
/// bytes the frame took.
pub fn read_message(input: &[u8]) -> (r: Result<(String, usize), FrameError>)
    ensures
        frame_view(r) == decode_frame(input@),
{
    match read_message_at(input, 0) {
        (Ok(text), next) => Ok((text, next)),
        (Err(e), _) => Err(e),
    }
}

} // verus!
