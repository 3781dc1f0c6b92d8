use vstd::prelude::*;
use vstd::utf8::encode_utf8;
use crate::codec::{
    decode_end, decode_from, frame_text, lemma_decode_end, read_message_at, FrameError,
};
use crate::codec_proofs::{encode_all, lemma_decode_framed_at};
use crate::json::{json_parse, member, parse_json, Json, JsonTree};
use crate::results::u32_of;

verus! {

/// The `id` of a message, where it is a plain integer that fits in `u32`.
pub open spec fn reply_id(t: JsonTree) -> Option<u32> {
    u32_of(member(t, "id"@))
}

/// A payload text is a JSON message whose `id` is `expected`.
pub open spec fn answers(text: Seq<char>, expected: u32) -> bool {
    json_parse(text) matches Some(t) && reply_id(t) == Some(expected)
}

/// The message of a payload that answers the request `expected`.
pub fn match_reply(text: &str, expected: u32) -> (r: Option<Json>)
    ensures
        r is Some <==> answers(text@, expected),
        r matches Some(j) ==> json_parse(text@) == Some(j@),
{
    match parse_json(text) {
        Some(message) => {
            let id = match message.get("id") {
                Some(v) => v.as_u32(),
                None => None,
            };
            match id {
                Some(n) => if n == expected {
                    Some(message)
                } else {
                    None
                },
                None => None,
            }
        },
        None => None,
    }
}

/// The most frames in a row that may fail to decode while a reply is awaited.
pub const MAX_DECODE_FAILURES: u32 = 3;

/// After a frame fails to decode with `e`, `failures` frames in a row having failed
/// before it, the wait goes on: the input has not ended and the failures stay under
/// the bound.
pub open spec fn keeps_waiting(e: FrameError, failures: nat) -> bool {
    e != FrameError::UnexpectedEof && failures + 1 < MAX_DECODE_FAILURES
}

/// Whether the wait goes on after a frame failed to decode.
pub fn keep_waiting(e: FrameError, failures: u32) -> (r: bool)
    ensures
        r == keeps_waiting(e, failures as nat),
{
    e != FrameError::UnexpectedEof && failures < MAX_DECODE_FAILURES - 1
}

/// Waiting from `pos` for the reply to request `expected`, `failures` frames in a row
/// having failed to decode just before: a frame whose payload does not answer the
/// request is passed over; one that fails to decode is passed over too while the wait
/// goes on, and else ends the wait with its error. The reply and the position after
/// its frame.
pub open spec fn await_from(input: Seq<u8>, pos: int, expected: u32, failures: nat) -> Result<
    (JsonTree, int),
    FrameError,
>
    decreases input.len() - pos,
    via await_from_decreases
{
    match decode_from(input, pos, None) {
        Err(e) => if keeps_waiting(e, failures) {
            await_from(input, decode_end(input, pos, None), expected, failures + 1)
        } else {
            Err(e)
        },
        Ok((text, next)) => if answers(text, expected) {
            Ok((json_parse(text)->0, next))
        } else {
            await_from(input, next, expected, 0)
        },
    }
}

#[via_fn]
proof fn await_from_decreases(input: Seq<u8>, pos: int, expected: u32, failures: nat) {
    if 0 <= pos < input.len() {
        lemma_decode_end(input, pos, None);
    }
}

pub open spec fn reply_view(r: Result<(Json, usize), FrameError>) -> Result<
    (JsonTree, int),
    FrameError,
> {
    match r {
        Ok((j, next)) => Ok((j@, next as int)),
        Err(e) => Err(e),
    }
}

/// Reads frames from the start of `stream` until one answers the request `expected`:
/// that message, and the number of bytes read up to the end of its frame.
pub fn await_reply(stream: &[u8], expected: u32) -> (r: Result<(Json, usize), FrameError>)
    ensures
        reply_view(r) == await_from(stream@, 0, expected, 0),
{
    let mut pos: usize = 0;
    let mut failures: u32 = 0;
    loop
        invariant
            pos <= stream@.len(),
            failures < MAX_DECODE_FAILURES,
            await_from(stream@, 0, expected, 0) == await_from(
                stream@,
                pos as int,
                expected,
                failures as nat,
            ),
        decreases stream@.len() - pos,
    {
        proof {
            if pos < stream@.len() {
                lemma_decode_end(stream@, pos as int, None);
            }
        }
        match read_message_at(stream, pos) {
            (Err(e), stop) => {
                if keep_waiting(e, failures) {
                    failures = failures + 1;
                    pos = stop;
                } else {
                    return Err(e);
                }
            },
            (Ok(text), next) => {
                match match_reply(text.as_str(), expected) {
                    Some(message) => {
                        return Ok((message, next));
                    },
                    None => {
                        failures = 0;
                        pos = next;
                    },
                }
            },
        }
    }
}

/// The frames of a sequence of payloads.
pub open spec fn frames_of(payloads: Seq<Seq<char>>) -> Seq<Seq<char>> {
    payloads.map_values(|p: Seq<char>| frame_text(p))
}

proof fn lemma_await_at(
    pre: Seq<u8>,
    payloads: Seq<Seq<char>>,
    k: int,
    expected: u32,
    rest: Seq<u8>,
)
    requires
        0 <= k < payloads.len(),
        forall|i: int| 0 <= i < payloads.len() ==> encode_utf8(#[trigger] payloads[i]).len() <= usize::MAX,
        forall|i: int| 0 <= i < k ==> !answers(#[trigger] payloads[i], expected),
        answers(payloads[k], expected),
    ensures
        await_from(pre + encode_all(frames_of(payloads)) + rest, pre.len() as int, expected, 0)
            == Ok::<(JsonTree, int), FrameError>(
            (
                json_parse(payloads[k])->0,
                pre.len() + encode_all(frames_of(payloads.subrange(0, k + 1))).len() as int,
            ),
        ),
    decreases k,
{
    let p = payloads[0];
    let tail = payloads.drop_first();
    let fs = frames_of(payloads);
    assert(fs[0] == frame_text(p));
    assert(fs.drop_first() =~= frames_of(tail));
    let ef = encode_utf8(frame_text(p));
    let input = pre + encode_all(fs) + rest;
    assert(input =~= pre + ef + (encode_all(frames_of(tail)) + rest));
    lemma_decode_framed_at(pre, p, encode_all(frames_of(tail)) + rest);
    let head = frames_of(payloads.subrange(0, k + 1));
    assert(head[0] == frame_text(p));
    if k == 0 {
        assert(head.drop_first() =~= Seq::<Seq<char>>::empty());
        assert(encode_all(head) == ef + encode_all(Seq::<Seq<char>>::empty()));
        assert(encode_all(head) =~= ef);
    } else {
        assert(input =~= (pre + ef) + encode_all(frames_of(tail)) + rest);
        assert forall|i: int| 0 <= i < tail.len() implies encode_utf8(#[trigger] tail[i]).len()
            <= usize::MAX by {
            assert(tail[i] == payloads[i + 1]);
        }
        assert forall|i: int| 0 <= i < k - 1 implies !answers(#[trigger] tail[i], expected) by {
            assert(tail[i] == payloads[i + 1]);
        }
        lemma_await_at(pre + ef, tail, k - 1, expected, rest);
        assert(head.drop_first() =~= frames_of(tail.subrange(0, k)));
        assert(encode_all(head) =~= ef + encode_all(frames_of(tail.subrange(0, k))));
    }
}

/// Correlation: on a stream of well-formed frames, waiting for the reply to a request
/// passes over every frame that does not answer it, whatever it holds, and returns the
/// message of the first that does, having read the stream up to the end of that frame.
pub proof fn lemma_await_first_match(
    payloads: Seq<Seq<char>>,
    k: int,
    expected: u32,
    rest: Seq<u8>,
)
    requires
        0 <= k < payloads.len(),
        forall|i: int| 0 <= i < payloads.len() ==> encode_utf8(#[trigger] payloads[i]).len() <= usize::MAX,
        forall|i: int| 0 <= i < k ==> !answers(#[trigger] payloads[i], expected),
        answers(payloads[k], expected),
    ensures
        await_from(encode_all(frames_of(payloads)) + rest, 0, expected, 0) == Ok::<
            (JsonTree, int),
            FrameError,
        >(
            (
                json_parse(payloads[k])->0,
                encode_all(frames_of(payloads.subrange(0, k + 1))).len() as int,
            ),
        ),
{
    lemma_await_at(Seq::empty(), payloads, k, expected, rest);
    assert(Seq::<u8>::empty() + encode_all(frames_of(payloads)) + rest =~= encode_all(
        frames_of(payloads),
    ) + rest);
}

} // verus!
