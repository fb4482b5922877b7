//! A decoder for chunked bodies, the inverse of the chunk encoder.
//!
//! A body is a run of chunks, each a hexadecimal length, a line end, that
//! many bytes and a line end, closed by a chunk of length zero. The decoder
//! trusts nothing but the declared lengths. It reads neither chunk
//! extensions nor trailers, and ignores what follows the closing chunk.

use vstd::prelude::*;
use crate::encoder::{
    chunk_frame, chunk_terminal, frames, hex_digit, hex_numeral, EncoderMode,
};

verus! {

/// Whether `b` is an ASCII hexadecimal digit, of either case.
pub open spec fn is_hex(b: u8) -> bool {
    (48 <= b <= 57) || (97 <= b <= 102) || (65 <= b <= 70)
}

/// The value of a hexadecimal digit.
pub open spec fn digit_value(b: u8) -> nat {
    if 48 <= b <= 57 {
        (b - 48) as nat
    } else if 97 <= b <= 102 {
        (b - 87) as nat
    } else {
        (b - 55) as nat
    }
}

/// The number that the hexadecimal digits `digits` write.
pub open spec fn numeral_value(digits: Seq<u8>) -> nat
    decreases digits.len(),
{
    if digits.len() == 0 {
        0
    } else {
        numeral_value(digits.drop_last()) * 16 + digit_value(digits.last())
    }
}

/// The first position at or after `from` that holds no hexadecimal digit.
pub open spec fn digits_end(s: Seq<u8>, from: nat) -> nat
    decreases s.len() - from,
{
    if from < s.len() && is_hex(s[from as int]) {
        digits_end(s, from + 1)
    } else {
        from
    }
}

/// Whether a line end stands at position `at`.
pub open spec fn line_end_at(s: Seq<u8>, at: nat) -> bool {
    at + 2 <= s.len() && s[at as int] == 13 && s[at as int + 1] == 10
}

/// The payload of the chunked body that starts at `pos`, or `None` where
/// the bytes are no complete chunked body.
pub open spec fn decode_from(s: Seq<u8>, pos: nat) -> Option<Seq<u8>>
    decreases s.len() - pos,
{
    let end = digits_end(s, pos);
    let size = numeral_value(s.subrange(pos as int, end as int));
    let data = end + 2;
    if end <= pos || end > s.len() || !line_end_at(s, end) {
        None
    } else if size == 0 {
        if line_end_at(s, data) {
            Some(Seq::empty())
        } else {
            None
        }
    } else if !line_end_at(s, data + size) {
        None
    } else {
        match decode_from(s, data + size + 2) {
            Some(rest) => Some(s.subrange(data as int, (data + size) as int) + rest),
            None => None,
        }
    }
}

/// The payload of a chunked body.
pub open spec fn decode_body(s: Seq<u8>) -> Option<Seq<u8>> {
    decode_from(s, 0)
}

/// A run of digits ends inside the input, holds digits only, and stops at
/// the first byte that is none.
proof fn lemma_digits_end_bounds(s: Seq<u8>, from: nat)
    requires
        from <= s.len(),
    ensures
        from <= digits_end(s, from) <= s.len(),
        forall|k: int| from <= k < digits_end(s, from) ==> is_hex(#[trigger] s[k]),
        digits_end(s, from) < s.len() ==> !is_hex(s[digits_end(s, from) as int]),
    decreases s.len() - from,
{
    if from < s.len() && is_hex(s[from as int]) {
        lemma_digits_end_bounds(s, from + 1);
    }
}

/// A position with digits before it and none at it is where the run ends.
proof fn lemma_digits_end_is(s: Seq<u8>, from: nat, end: nat)
    requires
        from <= end <= s.len(),
        forall|k: int| from <= k < end ==> is_hex(#[trigger] s[k]),
        end < s.len() ==> !is_hex(s[end as int]),
    ensures
        digits_end(s, from) == end,
    decreases end - from,
{
    if from < end {
        lemma_digits_end_is(s, from + 1, end);
    }
}

/// More digits never write a smaller number.
proof fn lemma_value_grows(s: Seq<u8>, from: int, mid: int, end: int)
    requires
        0 <= from <= mid <= end <= s.len(),
    ensures
        numeral_value(s.subrange(from, mid)) <= numeral_value(s.subrange(from, end)),
    decreases end - mid,
{
    if mid < end {
        lemma_value_grows(s, from, mid, end - 1);
        assert(s.subrange(from, end).drop_last() =~= s.subrange(from, end - 1));
    }
}

/// Reads the chunk size whose digits stand in `input[from..end]`. Returns
/// `None` where the size exceeds the input's length.
fn read_size(input: &[u8], from: usize, end: usize) -> (size: Option<usize>)
    requires
        from <= end <= input@.len(),
        forall|k: int| from <= k < end ==> is_hex(#[trigger] input@[k]),
    ensures
        (match size {
            Some(n) => n == numeral_value(input@.subrange(from as int, end as int)) && n
                <= input@.len(),
            None => numeral_value(input@.subrange(from as int, end as int)) > input@.len(),
        }),
{
    let len: usize = input.len();
    let mut value: usize = 0;
    let mut i: usize = from;
    assert(input@.subrange(from as int, from as int) =~= Seq::<u8>::empty());
    while i < end
        invariant
            from <= i <= end <= input@.len(),
            len == input@.len(),
            forall|k: int| from <= k < end ==> is_hex(#[trigger] input@[k]),
            value == numeral_value(input@.subrange(from as int, i as int)),
            value <= len,
        decreases end - i,
    {
        let b: u8 = input[i];
        let d: usize = if b <= 57 {
            (b - 48) as usize
        } else if b >= 97 {
            (b - 87) as usize
        } else {
            (b - 55) as usize
        };
        proof {
            assert(is_hex(input@[i as int]));
            assert(d == digit_value(b));
            assert(input@.subrange(from as int, i + 1).drop_last() =~= input@.subrange(
                from as int,
                i as int,
            ));
            assert(numeral_value(input@.subrange(from as int, i + 1)) == value * 16 + d);
            lemma_value_grows(input@, from as int, i + 1, end as int);
        }
        if value > len / 16 {
            return None;
        }
        let shifted: usize = value * 16;
        if d > len || shifted > len - d {
            return None;
        }
        value = shifted + d;
        i = i + 1;
    }
    Some(value)
}

/// Whether a line end stands at `at`.
fn has_line_end(input: &[u8], at: usize) -> (found: bool)
    requires
        at <= input@.len(),
    ensures
        found == line_end_at(input@, at as nat),
{
    let len: usize = input.len();
    len - at >= 2 && input[at] == 13 && input[at + 1] == 10
}

/// Decodes a chunked body: the payloads of its chunks, joined, up to the
/// closing chunk. Returns `None` where the bytes are no complete chunked
/// body.
pub fn decode_chunked(input: &[u8]) -> (payload: Option<Vec<u8>>)
    ensures
        payload is Some <==> decode_body(input@) is Some,
        payload is Some ==> payload->Some_0@ == decode_body(input@)->Some_0,
{
    let len: usize = input.len();
    let mut out: Vec<u8> = Vec::new();
    let mut pos: usize = 0;
    loop
        invariant
            pos <= len == input@.len(),
            decode_body(input@) == (match decode_from(input@, pos as nat) {
                Some(rest) => Some(out@ + rest),
                None => None,
            }),
        decreases len - pos,
    {
        proof {
            lemma_digits_end_bounds(input@, pos as nat);
        }
        let mut end: usize = pos;
        while end < len && is_hex_byte(input[end])
            invariant
                pos <= end <= len == input@.len(),
                digits_end(input@, pos as nat) == digits_end(input@, end as nat),
                forall|k: int| pos <= k < end ==> is_hex(#[trigger] input@[k]),
            decreases len - end,
        {
            end = end + 1;
        }
        assert(digits_end(input@, pos as nat) == end);
        if end == pos || !has_line_end(input, end) {
            return None;
        }
        let size: usize = match read_size(input, pos, end) {
            Some(n) => n,
            None => {
                return None;
            },
        };
        let data: usize = end + 2;
        if size == 0 {
            if has_line_end(input, data) {
                assert(out@ + Seq::<u8>::empty() =~= out@);
                return Some(out);
            } else {
                return None;
            }
        }
        if len - data < size || !has_line_end(input, data + size) {
            return None;
        }
        let ghost before = out@;
        let mut k: usize = data;
        while k < data + size
            invariant
                data <= k <= data + size <= len == input@.len(),
                out@ == before + input@.subrange(data as int, k as int),
            decreases data + size - k,
        {
            out.push(input[k]);
            k = k + 1;
            assert(out@ =~= before + input@.subrange(data as int, k as int));
        }
        proof {
            let chunk = input@.subrange(data as int, data + size);
            match decode_from(input@, (data + size + 2) as nat) {
                Some(rest) => {
                    assert(before + (chunk + rest) =~= (before + chunk) + rest);
                },
                None => {},
            }
        }
        pos = data + size + 2;
    }
}

/// Whether `b` is an ASCII hexadecimal digit, of either case.
fn is_hex_byte(b: u8) -> (hex: bool)
    ensures
        hex == is_hex(b),
{
    (48 <= b && b <= 57) || (97 <= b && b <= 102) || (65 <= b && b <= 70)
}

/// A numeral is made of digits and writes the number it was made from.
proof fn lemma_numeral_is_hex(n: nat)
    ensures
        hex_numeral(n).len() >= 1,
        forall|k: int| 0 <= k < hex_numeral(n).len() ==> is_hex(#[trigger] hex_numeral(n)[k]),
        numeral_value(hex_numeral(n)) == n,
    decreases n,
{
    if n < 16 {
        assert(hex_numeral(n).drop_last() =~= Seq::<u8>::empty());
        assert(numeral_value(hex_numeral(n).drop_last()) == 0);
    } else {
        lemma_numeral_is_hex(n / 16);
        assert(hex_numeral(n).drop_last() =~= hex_numeral(n / 16));
        assert(is_hex(hex_digit(n % 16)));
        assert(digit_value(hex_digit(n % 16)) == n % 16);
    }
}

/// Bytes put in front move the end of a run of digits by their length.
proof fn lemma_digits_end_shift(a: Seq<u8>, b: Seq<u8>, pos: nat)
    requires
        pos <= b.len(),
    ensures
        digits_end(a + b, a.len() + pos) == a.len() + digits_end(b, pos),
    decreases b.len() - pos,
{
    if pos < b.len() {
        assert((a + b)[(a.len() + pos) as int] == b[pos as int]);
        if is_hex(b[pos as int]) {
            lemma_digits_end_shift(a, b, pos + 1);
        }
    }
}

/// Bytes put in front move a line end by their length.
proof fn lemma_line_end_shift(a: Seq<u8>, b: Seq<u8>, at: nat)
    ensures
        line_end_at(a + b, a.len() + at) == line_end_at(b, at),
{
    if at + 2 <= b.len() {
        assert((a + b)[(a.len() + at) as int] == b[at as int]);
        assert((a + b)[(a.len() + at) as int + 1] == b[at as int + 1]);
    }
}

/// Decoding does not look back: what stands before the position where it
/// starts has no part in the result.
proof fn lemma_decode_shift(a: Seq<u8>, b: Seq<u8>, pos: nat)
    requires
        pos <= b.len(),
    ensures
        decode_from(a + b, a.len() + pos) == decode_from(b, pos),
    decreases b.len() - pos,
{
    let s = a + b;
    let end = digits_end(b, pos);
    lemma_digits_end_bounds(b, pos);
    lemma_digits_end_shift(a, b, pos);
    assert(s.subrange((a.len() + pos) as int, (a.len() + end) as int) =~= b.subrange(
        pos as int,
        end as int,
    ));
    let size = numeral_value(b.subrange(pos as int, end as int));
    let data = end + 2;
    lemma_line_end_shift(a, b, end);
    lemma_line_end_shift(a, b, data);
    lemma_line_end_shift(a, b, data + size);
    if end > pos && line_end_at(b, end) && size > 0 && line_end_at(b, data + size) {
        lemma_decode_shift(a, b, data + size + 2);
        assert(s.subrange((a.len() + data) as int, (a.len() + data + size) as int)
            =~= b.subrange(data as int, (data + size) as int));
    }
}

/// The closing chunk alone is an empty body.
proof fn lemma_decode_terminal()
    ensures
        decode_body(chunk_terminal()) == Some(Seq::<u8>::empty()),
{
    let s = chunk_terminal();
    lemma_digits_end_is(s, 0, 1);
    assert(s.subrange(0, 1) =~= seq![48u8]);
    assert(seq![48u8].drop_last() =~= Seq::<u8>::empty());
    assert(numeral_value(seq![48u8].drop_last()) == 0);
    assert(numeral_value(seq![48u8]) == 0);
    assert(line_end_at(s, 1));
    assert(line_end_at(s, 3));
}

/// A chunk with a payload decodes to the payload, followed by whatever the
/// bytes after the chunk decode to.
proof fn lemma_decode_frame(payload: Seq<u8>, rest: Seq<u8>)
    requires
        payload.len() > 0,
    ensures
        decode_body(chunk_frame(payload) + rest) == (match decode_body(rest) {
            Some(tail) => Some(payload + tail),
            None => None,
        }),
{
    let digits = hex_numeral(payload.len());
    let h = digits.len();
    let n = payload.len();
    let frame = chunk_frame(payload);
    let s = frame + rest;
    lemma_numeral_is_hex(n);
    assert(frame.len() == h + 2 + n + 2);
    assert forall|k: int| 0 <= k < h implies is_hex(#[trigger] s[k]) by {
        assert(s[k] == digits[k]);
    }
    assert(s[h as int] == 13);
    lemma_digits_end_is(s, 0, h);
    assert(s.subrange(0, h as int) =~= digits);
    assert(line_end_at(s, h));
    assert(line_end_at(s, h + 2 + n));
    assert(s.subrange(h as int + 2, h as int + 2 + n as int) =~= payload);
    lemma_decode_shift(frame, rest, 0);
}

/// What the encoder frames, the decoder gives back: one chunk followed by
/// the closing chunk decodes to the chunk's payload, unchanged.
pub proof fn law_chunk_round_trip(payload: Seq<u8>)
    ensures
        decode_body(chunk_frame(payload) + chunk_terminal()) == Some(payload),
{
    lemma_decode_terminal();
    if payload.len() == 0 {
        let s = chunk_frame(payload) + chunk_terminal();
        lemma_digits_end_is(s, 0, 1);
        assert(s.subrange(0, 1) =~= seq![48u8]);
        assert(seq![48u8].drop_last() =~= Seq::<u8>::empty());
        assert(numeral_value(seq![48u8].drop_last()) == 0);
        assert(numeral_value(seq![48u8]) == 0);
        assert(line_end_at(s, 1));
        assert(line_end_at(s, 3));
        assert(payload =~= Seq::<u8>::empty());
    } else {
        lemma_decode_frame(payload, chunk_terminal());
        assert(payload + Seq::<u8>::empty() =~= payload);
    }
}

/// The chunked body that carries `messages`: one chunk each, in order, then
/// the closing chunk.
pub open spec fn chunked_body(messages: Seq<Seq<u8>>) -> Seq<u8> {
    frames(EncoderMode::Chunked, messages) + chunk_terminal()
}

/// The messages' bytes, one after the other.
pub open spec fn joined(messages: Seq<Seq<u8>>) -> Seq<u8>
    decreases messages.len(),
{
    if messages.len() == 0 {
        Seq::empty()
    } else {
        joined(messages.drop_last()) + messages.last()
    }
}

/// Frames and joined bytes can be taken apart at the first message as
/// well as at the last.
proof fn lemma_frames_front(messages: Seq<Seq<u8>>)
    requires
        messages.len() > 0,
    ensures
        frames(EncoderMode::Chunked, messages) == chunk_frame(messages[0]) + frames(
            EncoderMode::Chunked,
            messages.skip(1),
        ),
        joined(messages) == messages[0] + joined(messages.skip(1)),
    decreases messages.len(),
{
    let mode = EncoderMode::Chunked;
    let front = messages.drop_last();
    let tail = messages.skip(1);
    if messages.len() == 1 {
        assert(frames(mode, front) =~= Seq::<u8>::empty());
        assert(frames(mode, tail) =~= Seq::<u8>::empty());
        assert(joined(front) =~= Seq::<u8>::empty());
        assert(joined(tail) =~= Seq::<u8>::empty());
        assert(frames(mode, messages) =~= chunk_frame(messages[0]) + frames(mode, tail));
        assert(joined(messages) =~= messages[0] + joined(tail));
    } else {
        lemma_frames_front(front);
        assert(front.skip(1) =~= tail.drop_last());
        assert(tail.last() == messages.last());
        assert(front[0] == messages[0]);
        assert(frames(mode, messages) =~= chunk_frame(messages[0]) + frames(mode, tail));
        assert(joined(messages) =~= messages[0] + joined(tail));
    }
}

/// A whole body round-trips: the chunks of any number of messages, none of
/// them empty, followed by the closing chunk decode to the messages' bytes
/// in order. (An empty message would frame as the closing chunk and end the
/// body early.)
pub proof fn law_body_round_trip(messages: Seq<Seq<u8>>)
    requires
        forall|i: int| 0 <= i < messages.len() ==> (#[trigger] messages[i]).len() > 0,
    ensures
        decode_body(chunked_body(messages)) == Some(joined(messages)),
    decreases messages.len(),
{
    if messages.len() == 0 {
        lemma_decode_terminal();
        assert(chunked_body(messages) =~= chunk_terminal());
    } else {
        let tail = messages.skip(1);
        assert forall|i: int| 0 <= i < tail.len() implies (#[trigger] tail[i]).len() > 0 by {
            assert(tail[i] == messages[i + 1]);
        }
        law_body_round_trip(tail);
        lemma_frames_front(messages);
        lemma_decode_frame(messages[0], chunked_body(tail));
        assert(chunked_body(messages) =~= chunk_frame(messages[0]) + chunked_body(tail));
    }
}

} // verus!
