use vstd::prelude::*;
use vstd::utf8::*;
use crate::codec::{
    blank_line, body_result, content_length_name, decode_frame, decode_from, frame_text,
    header_effect, header_step, line_end, FrameError, HeaderStep,
};
use crate::text::{
    all_digits, count_char, decimal, digit_char, digit_value, digits_value, eq_ignore_ascii_case,
    first_index, is_digit, is_space, lemma_first_index, parse_usize, trim, trim_end,
    trim_start,
};

verus! {

/// A line as the stream carries it: it ends with its only `\n`.
pub open spec fn is_line(l: Seq<char>) -> bool {
    &&& l.len() > 0
    &&& l.last() == '\n'
    &&& forall|i: int| 0 <= i < l.len() - 1 ==> l[i] != '\n'
}

/// The bytes of a sequence of texts, one after the other.
pub open spec fn encode_all(texts: Seq<Seq<char>>) -> Seq<u8>
    decreases texts.len(),
{
    if texts.len() == 0 {
        Seq::empty()
    } else {
        encode_utf8(texts[0]) + encode_all(texts.drop_first())
    }
}

/// A header line that names the payload size: `Content-Length:`, in any ASCII case,
/// then one space and a value.
pub open spec fn is_length_header(l: Seq<char>) -> bool {
    &&& count_char(l, ' ') == 1
    &&& eq_ignore_ascii_case(l.subrange(0, first_index(l, ' ')), content_length_name())
}

pub proof fn lemma_encode_concat(a: Seq<char>, b: Seq<char>)
    ensures
        encode_utf8(a + b) == encode_utf8(a) + encode_utf8(b),
    decreases a.len(),
{
    if a.len() == 0 {
        assert(a + b =~= b);
        assert(encode_utf8(a) + encode_utf8(b) =~= encode_utf8(b));
    } else {
        assert((a + b).drop_first() =~= a.drop_first() + b);
        assert((a + b)[0] == a[0]);
        lemma_encode_concat(a.drop_first(), b);
        assert(encode_utf8(a + b) =~= encode_utf8(a) + encode_utf8(b));
    }
}

proof fn lemma_encode_ascii_char(c: char)
    requires
        (c as u32) <= 0x7F,
    ensures
        encode_utf8(seq![c]) == seq![(c as u32) as u8],
{
    let u = c as u32;
    assert(u <= 0x7F ==> (u & 0x7F) as u8 == u as u8) by (bit_vector);
    assert(seq![c].drop_first() =~= Seq::<char>::empty());
    assert(encode_utf8(seq![c].drop_first()) =~= Seq::<u8>::empty());
    assert(encode_utf8(seq![c]) =~= seq![(c as u32) as u8]);
}

proof fn lemma_scalar_bytes(c: char)
    ensures
        c == '\n' ==> encode_utf8(seq![c]) == seq![10u8],
        c != '\n' ==> forall|j: int|
            0 <= j < encode_scalar(c as u32).len() ==> #[trigger] encode_scalar(c as u32)[j] != 10u8,
{
    let u = c as u32;
    assert(u <= 0x7F ==> (((u & 0x7F) as u8 == 10u8) <==> u == 10)) by (bit_vector);
    assert(0xC0u8 | (((u >> 6) & 0x1F) as u8) != 10u8) by (bit_vector);
    assert(0xE0u8 | (((u >> 12) & 0x0F) as u8) != 10u8) by (bit_vector);
    assert(0xF0u8 | (((u >> 18) & 0x7) as u8) != 10u8) by (bit_vector);
    assert(0x80u8 | ((u & 0x3F) as u8) != 10u8) by (bit_vector);
    assert(0x80u8 | (((u >> 6) & 0x3F) as u8) != 10u8) by (bit_vector);
    assert(0x80u8 | (((u >> 12) & 0x3F) as u8) != 10u8) by (bit_vector);
    if c == '\n' {
        lemma_encode_ascii_char(c);
    }
}

proof fn lemma_no_newline_bytes(s: Seq<char>)
    requires
        forall|i: int| 0 <= i < s.len() ==> s[i] != '\n',
    ensures
        forall|j: int| 0 <= j < encode_utf8(s).len() ==> encode_utf8(s)[j] != 10u8,
    decreases s.len(),
{
    if s.len() > 0 {
        lemma_scalar_bytes(s[0]);
        lemma_no_newline_bytes(s.drop_first());
        let e = encode_utf8(s);
        let h = encode_scalar(s[0] as u32);
        let t = encode_utf8(s.drop_first());
        assert(e == h + t);
        assert forall|j: int| 0 <= j < e.len() implies e[j] != 10u8 by {
            if j < h.len() {
                assert(e[j] == h[j]);
            } else {
                assert(e[j] == t[j - h.len()]);
            }
        }
    }
}

proof fn lemma_line_end_at(input: Seq<u8>, pos: int, e: int)
    requires
        0 <= pos < e <= input.len(),
        input[e - 1] == 10u8,
        forall|j: int| pos <= j < e - 1 ==> input[j] != 10u8,
    ensures
        line_end(input, pos) == e,
    decreases e - pos,
{
    if pos < e - 1 {
        lemma_line_end_at(input, pos + 1, e);
    }
}

/// A line put on the stream is read back whole, as the first line from where it starts.
pub proof fn lemma_read_line(pre: Seq<u8>, l: Seq<char>, rest: Seq<u8>)
    requires
        is_line(l),
    ensures
        line_end(pre + encode_utf8(l) + rest, pre.len() as int) == pre.len() + encode_utf8(
            l,
        ).len(),
        (pre + encode_utf8(l) + rest).subrange(
            pre.len() as int,
            pre.len() + encode_utf8(l).len() as int,
        ) == encode_utf8(l),
{
    let body = l.drop_last();
    assert(l =~= body + seq!['\n']);
    lemma_encode_concat(body, seq!['\n']);
    lemma_scalar_bytes('\n');
    lemma_no_newline_bytes(body);
    let el = encode_utf8(l);
    let eb = encode_utf8(body);
    assert(el =~= eb.push(10u8));
    let input = pre + el + rest;
    let p = pre.len() as int;
    assert forall|j: int| p <= j < p + el.len() - 1 implies input[j] != 10u8 by {
        assert(input[j] == eb[j - p]);
    }
    assert(input[p + el.len() - 1] == 10u8);
    lemma_line_end_at(input, p, p + el.len());
    assert(input.subrange(p, p + el.len()) =~= el);
}

/// How a line put on the stream is read as a header line.
pub proof fn lemma_header_step_of_line(l: Seq<char>, size: Option<usize>)
    requires
        is_line(l),
    ensures
        l == seq!['\r', '\n'] ==> header_step(size, encode_utf8(l)) == match size {
            Some(n) => HeaderStep::Body(n),
            None => HeaderStep::Fail(FrameError::MissingLength),
        },
        l != seq!['\r', '\n'] ==> header_step(size, encode_utf8(l)) == header_effect(l, size),
{
    encode_utf8_valid_utf8(l);
    encode_utf8_decode_utf8(l);
    let e = encode_utf8(l);
    lemma_read_line(Seq::empty(), l, Seq::empty());
    assert(e.len() > 0) by {
        lemma_encode_concat(l.drop_last(), seq!['\n']);
        assert(l =~= l.drop_last() + seq!['\n']);
        lemma_scalar_bytes('\n');
    }
    if l == seq!['\r', '\n'] {
        assert(seq!['\r', '\n'] =~= seq!['\r'] + seq!['\n']);
        lemma_encode_concat(seq!['\r'], seq!['\n']);
        lemma_scalar_bytes('\n');
        lemma_encode_ascii_char('\r');
        assert(e =~= blank_line());
    } else if e == blank_line() {
        assert(decode_utf8(blank_line()) == l);
        assert(decode_utf8(blank_line()) == decode_utf8(encode_utf8(seq!['\r', '\n']))) by {
            assert(seq!['\r', '\n'] =~= seq!['\r'] + seq!['\n']);
            lemma_encode_concat(seq!['\r'], seq!['\n']);
            lemma_scalar_bytes('\n');
            lemma_encode_ascii_char('\r');
            assert(encode_utf8(seq!['\r', '\n']) =~= blank_line());
        }
        encode_utf8_decode_utf8(seq!['\r', '\n']);
    }
}

proof fn lemma_digit_char(k: nat)
    requires
        k < 10,
    ensures
        is_digit(digit_char(k)),
        digit_value(digit_char(k)) == k,
{
}

/// The decimal digits of `n` read back as `n`.
pub proof fn lemma_decimal(n: nat)
    ensures
        decimal(n).len() >= 1,
        all_digits(decimal(n)),
        digits_value(decimal(n)) == n,
    decreases n,
{
    lemma_digit_char(n % 10);
    if n >= 10 {
        lemma_decimal(n / 10);
        let d = decimal(n);
        assert(d.drop_last() =~= decimal(n / 10));
        assert(d.last() == digit_char(n % 10));
        assert((n / 10) * 10 + n % 10 == n) by (nonlinear_arith);
        assert forall|i: int| 0 <= i < d.len() implies is_digit(#[trigger] d[i]) by {
            if i < d.len() - 1 {
                assert(d[i] == decimal(n / 10)[i]);
            }
        }
    } else {
        assert(decimal(n).drop_last() =~= Seq::<char>::empty());
        assert(decimal(n).last() == digit_char(n));
        assert(digits_value(Seq::<char>::empty()) == 0);
    }
}

proof fn lemma_count_concat(a: Seq<char>, b: Seq<char>, c: char)
    ensures
        count_char(a + b, c) == count_char(a, c) + count_char(b, c),
    decreases b.len(),
{
    if b.len() == 0 {
        assert(a + b =~= a);
    } else {
        assert((a + b).drop_last() =~= a + b.drop_last());
        lemma_count_concat(a, b.drop_last(), c);
    }
}

proof fn lemma_count_absent(s: Seq<char>, c: char)
    requires
        forall|i: int| 0 <= i < s.len() ==> s[i] != c,
    ensures
        count_char(s, c) == 0,
    decreases s.len(),
{
    if s.len() > 0 {
        lemma_count_absent(s.drop_last(), c);
    }
}

proof fn lemma_trim_digits_line(d: Seq<char>)
    requires
        d.len() >= 1,
        all_digits(d),
    ensures
        trim(d + seq!['\r', '\n']) == d,
{
    let l = d + seq!['\r', '\n'];
    assert(is_digit(d[0]));
    assert(l[0] == d[0]);
    assert(trim_start(l) == l);
    assert(l.drop_last() =~= d + seq!['\r']);
    assert((d + seq!['\r']).drop_last() =~= d);
    assert(l.last() == '\n');
    assert(is_space('\n'));
    assert(trim_end(l) == trim_end(d + seq!['\r']));
    assert((d + seq!['\r']).last() == '\r');
    assert(is_space('\r'));
    assert(trim_end(d + seq!['\r']) == trim_end(d));
    assert(is_digit(d.last()));
    assert(trim_end(d) == d);
}

/// The `Content-Length` header name as the encoder writes it.
pub open spec fn length_header_name() -> Seq<char> {
    seq!['C', 'o', 'n', 't', 'e', 'n', 't', '-', 'L', 'e', 'n', 'g', 't', 'h', ':']
}

/// A framed payload that starts at `pre.len()` is read back as that payload, and the
/// read ends just after it, whatever comes before or after.
pub proof fn lemma_decode_framed_at(pre: Seq<u8>, payload: Seq<char>, rest: Seq<u8>)
    requires
        encode_utf8(payload).len() <= usize::MAX,
    ensures
        decode_from(pre + encode_utf8(frame_text(payload)) + rest, pre.len() as int, None)
            == Ok::<(Seq<char>, int), FrameError>(
            (payload, pre.len() + encode_utf8(frame_text(payload)).len() as int),
        ),
{
    let n = encode_utf8(payload).len();
    let q = length_header_name();
    let d = decimal(n);
    let crlf = seq!['\r', '\n'];
    let l1 = q + seq![' '] + d + crlf;
    lemma_decimal(n);
    assert(frame_text(payload) =~= l1 + crlf + payload);
    lemma_encode_concat(l1, crlf);
    lemma_encode_concat(l1 + crlf, payload);
    let e1 = encode_utf8(l1);
    let e2 = encode_utf8(crlf);
    let ep = encode_utf8(payload);
    let input = pre + encode_utf8(frame_text(payload)) + rest;
    assert(input =~= pre + e1 + e2 + ep + rest);
    let p0 = pre.len() as int;

    // The first line: the length header.
    assert forall|i: int| 0 <= i < l1.len() - 1 implies l1[i] != '\n' by {
        if 16 <= i < 16 + d.len() {
            assert(l1[i] == d[i - 16]);
            assert(is_digit(d[i - 16]));
        }
    }
    assert(is_line(l1));
    assert(input =~= pre + e1 + (e2 + ep + rest));
    lemma_read_line(pre, l1, e2 + ep + rest);
    lemma_header_step_of_line(l1, None);
    assert(l1 != crlf) by {
        assert(l1.len() > 2);
    }
    assert forall|i: int| 0 <= i < q.len() implies q[i] != ' ' by {}
    assert forall|i: int| 0 <= i < d.len() implies d[i] != ' ' by {
        assert(is_digit(d[i]));
    }
    lemma_count_absent(q, ' ');
    lemma_count_absent(d, ' ');
    lemma_count_absent(crlf, ' ');
    lemma_count_concat(q, seq![' '], ' ');
    lemma_count_concat(q + seq![' '], d, ' ');
    lemma_count_concat(q + seq![' '] + d, crlf, ' ');
    assert(count_char(seq![' '], ' ') == 1) by {
        assert(seq![' '].drop_last() =~= Seq::<char>::empty());
        assert(seq![' '].last() == ' ');
        assert(count_char(Seq::<char>::empty(), ' ') == 0);
    }
    assert(count_char(l1, ' ') == 1);
    lemma_first_index(l1, ' ', 15);
    assert(l1.subrange(0, 15) =~= q);
    assert(eq_ignore_ascii_case(q, content_length_name()));
    assert(l1.subrange(16, l1.len() as int) =~= d + crlf);
    lemma_trim_digits_line(d);
    assert(is_digit(d[0]));
    assert(parse_usize(d) == Some(n as usize));
    assert(header_effect(l1, None) == HeaderStep::Continue(Some(n as usize)));
    assert(decode_from(input, p0, None) == decode_from(input, p0 + e1.len(), Some(n as usize)));

    // The blank line.
    assert(is_line(crlf));
    assert(input =~= (pre + e1) + e2 + (ep + rest));
    lemma_read_line(pre + e1, crlf, ep + rest);
    lemma_header_step_of_line(crlf, Some(n as usize));
    let start = p0 + e1.len() + e2.len();
    assert(decode_from(input, p0 + e1.len(), Some(n as usize)) == body_result(
        input,
        start,
        n as usize,
    ));

    // The payload.
    assert(input.subrange(start, start + n) =~= ep);
    encode_utf8_valid_utf8(payload);
    encode_utf8_decode_utf8(payload);
}

/// Round trip: a framed payload, followed by anything at all, is read back as that
/// payload, and the read ends just after it.
pub proof fn lemma_frame_round_trip(payload: Seq<char>, rest: Seq<u8>)
    requires
        encode_utf8(payload).len() <= usize::MAX,
    ensures
        decode_frame(encode_utf8(frame_text(payload)) + rest) == Ok::<(Seq<char>, int), FrameError>(
            (payload, encode_utf8(frame_text(payload)).len() as int),
        ),
{
    lemma_decode_framed_at(Seq::empty(), payload, rest);
    assert(Seq::<u8>::empty() + encode_utf8(frame_text(payload)) + rest =~= encode_utf8(
        frame_text(payload),
    ) + rest);
}

/// A header line that is not of the form `name value` (one space between two parts)
/// stops the read with a malformed-header error, wherever it stands among the headers.
pub proof fn lemma_malformed_header(
    pre: Seq<u8>,
    l: Seq<char>,
    rest: Seq<u8>,
    size: Option<usize>,
)
    requires
        is_line(l),
        l != seq!['\r', '\n'],
        count_char(l, ' ') != 1,
    ensures
        decode_from(pre + encode_utf8(l) + rest, pre.len() as int, size) == Err::<
            (Seq<char>, int),
            FrameError,
        >(FrameError::MalformedHeader),
{
    lemma_read_line(pre, l, rest);
    lemma_header_step_of_line(l, size);
}

proof fn lemma_missing_length_from(pre: Seq<u8>, hs: Seq<Seq<char>>, rest: Seq<u8>)
    requires
        forall|i: int|
            0 <= i < hs.len() ==> is_line(#[trigger] hs[i]) && hs[i] != seq!['\r', '\n']
                && !is_length_header(hs[i]),
    ensures
        decode_from(
            pre + encode_all(hs) + encode_utf8(seq!['\r', '\n']) + rest,
            pre.len() as int,
            None,
        ) matches Err(e) && e != FrameError::UnexpectedEof,
    decreases hs.len(),
{
    let crlf = seq!['\r', '\n'];
    let input = pre + encode_all(hs) + encode_utf8(crlf) + rest;
    if hs.len() == 0 {
        assert(input =~= pre + encode_utf8(crlf) + rest);
        lemma_read_line(pre, crlf, rest);
        lemma_header_step_of_line(crlf, None);
    } else {
        let h = hs[0];
        assert(is_line(h) && h != crlf && !is_length_header(h));
        let tail = hs.drop_first();
        assert(input =~= pre + encode_utf8(h) + (encode_all(tail) + encode_utf8(crlf) + rest));
        lemma_read_line(pre, h, encode_all(tail) + encode_utf8(crlf) + rest);
        lemma_header_step_of_line(h, None);
        let next = pre + encode_utf8(h);
        assert(input =~= next + encode_all(tail) + encode_utf8(crlf) + rest);
        assert forall|i: int| 0 <= i < tail.len() implies is_line(#[trigger] tail[i]) && tail[i]
            != crlf && !is_length_header(tail[i]) by {
            assert(tail[i] == hs[i + 1]);
        }
        lemma_missing_length_from(next, tail, rest);
    }
}

/// A header block that ends (with its blank line) before any `Content-Length`
/// header is a data error: the read neither waits for more input nor makes up a size.
pub proof fn lemma_missing_length(hs: Seq<Seq<char>>, rest: Seq<u8>)
    requires
        forall|i: int|
            0 <= i < hs.len() ==> is_line(#[trigger] hs[i]) && hs[i] != seq!['\r', '\n']
                && !is_length_header(hs[i]),
    ensures
        decode_frame(encode_all(hs) + encode_utf8(seq!['\r', '\n']) + rest) matches Err(e)
            && e != FrameError::UnexpectedEof,
{
    let input = encode_all(hs) + encode_utf8(seq!['\r', '\n']) + rest;
    assert(input =~= Seq::<u8>::empty() + encode_all(hs) + encode_utf8(seq!['\r', '\n']) + rest);
    lemma_missing_length_from(Seq::empty(), hs, rest);
}

} // verus!
