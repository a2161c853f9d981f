//! The canonical wire form of frames, and the proof that it reads back.

use crate::frame::FrameValue;
use crate::grammar::{
    crlf_at, elements_at, elements_bounds, first_crlf, frame_at, length_at, length_bounds, Reading, ARRAY_PREFIX,
    BULK_STRING_PREFIX, CR, LF, MAX_NESTING_DEPTH,
};
use crate::text::{ascii_is_utf8, decimal, decimal_denotes, decimal_reads_back, is_digit, signed_decimal};
use vstd::prelude::*;

verus! {

/// Carriage return and line feed.
pub open spec fn crlf() -> Seq<u8> {
    seq![CR, LF]
}

/// A type byte, a length and CRLF.
pub open spec fn length_header(prefix: u8, length: int) -> Seq<u8> {
    seq![prefix] + signed_decimal(length) + crlf()
}

/// A bulk string on the wire: `$`, the length of the payload, CRLF, the payload, CRLF.
pub open spec fn bulk_string_wire(payload: Seq<u8>) -> Seq<u8> {
    length_header(BULK_STRING_PREFIX, payload.len() as int) + payload + crlf()
}

/// The null bulk string on the wire: `$-1` and CRLF.
pub open spec fn null_wire() -> Seq<u8> {
    length_header(BULK_STRING_PREFIX, -1)
}

/// The wire form of a value made of bulk strings, arrays and nulls. Simple strings, errors and
/// integers only occur in replies and have no wire form here.
pub open spec fn wire(value: FrameValue) -> Seq<u8>
    decreases value,
{
    match value {
        FrameValue::BulkString(payload) => bulk_string_wire(payload),
        FrameValue::Array(elements) => length_header(ARRAY_PREFIX, elements.len() as int) + wire_all(
            elements,
        ),
        FrameValue::Null => null_wire(),
        _ => Seq::empty(),
    }
}

/// The wire forms of several values, one behind the other.
pub open spec fn wire_all(values: Seq<FrameValue>) -> Seq<u8>
    decreases values,
{
    if values.len() == 0 {
        Seq::empty()
    } else {
        wire_all(values.drop_last()) + wire(values.last())
    }
}

/// Whether a value that stands inside `depth` arrays can be sent: it is made of bulk strings,
/// arrays and nulls, its lengths fit in 64 bits, and it is not nested too deeply.
pub open spec fn sendable(value: FrameValue, depth: nat) -> bool
    decreases value,
{
    &&& depth <= MAX_NESTING_DEPTH
    &&& match value {
        FrameValue::BulkString(payload) => payload.len() <= i64::MAX,
        FrameValue::Array(elements) => {
            &&& elements.len() <= i64::MAX
            &&& forall|i: int| 0 <= i < elements.len() ==> sendable(#[trigger] elements[i], depth + 1)
        },
        FrameValue::Null => true,
        _ => false,
    }
}

/// A CRLF with no carriage return before it is the first one.
proof fn first_crlf_found(s: Seq<u8>, from: int, end: int)
    requires
        0 <= from <= end,
        crlf_at(s, end),
        forall|i: int| from <= i < end ==> #[trigger] s[i] != CR,
    ensures
        first_crlf(s, from) == Some(end),
    decreases end - from,
{
    if from < end {
        assert(s[from] != CR);
        first_crlf_found(s, from + 1, end);
    }
}

/// A length header reads back.
proof fn length_header_reads(front: Seq<u8>, prefix: u8, length: int, back: Seq<u8>)
    requires
        -1 <= length <= i64::MAX,
    ensures
        length_at(front + length_header(prefix, length) + back, front.len() as int)
            == Reading::Complete(
            length as i64,
            (front.len() + length_header(prefix, length).len()) as int,
        ),
{
    let text = signed_decimal(length);
    let s = front + length_header(prefix, length) + back;
    let start: int = front.len() + 1int;
    let end: int = start + text.len();
    decimal_denotes(length as nat);
    decimal_denotes(1);
    assert forall|i: int| 0 <= i < text.len() implies #[trigger] text[i] == 45 || is_digit(text[i]) by {
        if length == -1 {
            assert(text =~= seq![45u8] + decimal(1));
            if i > 0 {
                assert(is_digit(decimal(1)[i - 1]));
            }
        } else {
            assert(is_digit(decimal(length as nat)[i]));
        }
    }
    assert(s.subrange(start, end) =~= text);
    assert forall|i: int| start <= i < end implies #[trigger] s[i] != CR by {
        assert(s[i] == text[i - start]);
    }
    assert(s[end] == CR && s[end + 1] == LF);
    first_crlf_found(s, start, end);
    ascii_is_utf8(text);
    decimal_reads_back(length);
}

/// What is sent is what is read: the wire form of a value parses to that value and ends where the
/// wire form ends, whatever stands in front of it and behind it.
pub proof fn wire_reads_back(front: Seq<u8>, value: FrameValue, back: Seq<u8>, depth: nat)
    requires
        sendable(value, depth),
        front.len() + wire(value).len() <= usize::MAX,
    ensures
        frame_at(front + wire(value) + back, front.len() as int, depth) == Reading::Complete(
            value,
            (front.len() + wire(value).len()) as int,
        ),
    decreases value,
{
    let s = front + wire(value) + back;
    let offset = front.len() as int;
    match value {
        FrameValue::BulkString(payload) => {
            let header = length_header(BULK_STRING_PREFIX, payload.len() as int);
            assert(s =~= front + header + (payload + crlf() + back));
            length_header_reads(front, BULK_STRING_PREFIX, payload.len() as int, payload + crlf() + back);
            let start = offset + header.len();
            assert(s.subrange(start, start + payload.len()) =~= payload);
            assert(s[start + payload.len()] == CR && s[start + payload.len() + 1] == LF);
            assert(s[offset] == BULK_STRING_PREFIX);
        },
        FrameValue::Array(elements) => {
            let header = length_header(ARRAY_PREFIX, elements.len() as int);
            let rest = wire_all(elements);
            assert(s =~= front + header + (rest + back));
            length_header_reads(front, ARRAY_PREFIX, elements.len() as int, rest + back);
            assert(s[offset] == ARRAY_PREFIX);
            assert(s =~= (front + header) + rest + back);
            elements_read_back(front + header, elements, back, depth);
            assert(elements.len() <= wire(value).len()) by {
                wire_all_len(elements, depth + 1);
            }
        },
        FrameValue::Null => {
            length_header_reads(front, BULK_STRING_PREFIX, -1, back);
            assert(s[offset] == BULK_STRING_PREFIX);
        },
        _ => {},
    }
}

/// Array elements on the wire take at least one byte each.
proof fn wire_all_len(values: Seq<FrameValue>, depth: nat)
    requires
        forall|i: int| 0 <= i < values.len() ==> sendable(#[trigger] values[i], depth),
    ensures
        values.len() <= wire_all(values).len(),
    decreases values.len(),
{
    if values.len() > 0 {
        let last = values.last();
        assert(sendable(last, depth));
        assert(wire(last).len() >= 1) by {
            reveal_with_fuel(wire, 2);
        }
        wire_all_len(values.drop_last(), depth);
    }
}

/// The wire forms of array elements read back one after the other.
proof fn elements_read_back(front: Seq<u8>, values: Seq<FrameValue>, back: Seq<u8>, depth: nat)
    requires
        depth <= MAX_NESTING_DEPTH,
        forall|i: int| 0 <= i < values.len() ==> sendable(#[trigger] values[i], depth + 1),
        front.len() + wire_all(values).len() <= usize::MAX,
    ensures
        elements_at(front + wire_all(values) + back, front.len() as int, values.len(), depth)
            == Reading::Complete(values, (front.len() + wire_all(values).len()) as int),
    decreases values,
{
    if values.len() > 0 {
        let fewer = values.drop_last();
        let last = values.last();
        let s = front + wire_all(values) + back;
        assert(s =~= front + wire_all(fewer) + (wire(last) + back));
        elements_read_back(front, fewer, wire(last) + back, depth);
        assert(s =~= (front + wire_all(fewer)) + wire(last) + back);
        assert(sendable(last, depth + 1));
        wire_reads_back(front + wire_all(fewer), last, back, depth + 1);
        assert(fewer.push(last) =~= values);
    } else {
        assert(values =~= Seq::empty());
    }
}

/// A complete frame is made of bulk strings, arrays and nulls, and is not nested too deeply: it
/// can be sent again.
pub proof fn complete_frames_can_be_sent(s: Seq<u8>, offset: int, depth: nat)
    requires
        0 <= offset,
    ensures
        frame_at(s, offset, depth) matches Reading::Complete(value, _) ==> sendable(value, depth),
    decreases MAX_NESTING_DEPTH + 1 - depth, 1int, 0int,
{
    if depth <= MAX_NESTING_DEPTH && offset < s.len() {
        length_bounds(s, offset);
        if let Reading::Complete(length, payload) = length_at(s, offset) {
            if s[offset] == ARRAY_PREFIX && 0 <= length <= usize::MAX {
                complete_elements_can_be_sent(s, payload, length as nat, depth);
                elements_bounds(s, payload, length as nat, depth);
            }
        }
    }
}

/// Complete array elements can be sent again.
proof fn complete_elements_can_be_sent(s: Seq<u8>, start: int, count: nat, depth: nat)
    requires
        0 <= start <= s.len(),
    ensures
        elements_at(s, start, count, depth) matches Reading::Complete(values, _) ==> forall|i: int|
            0 <= i < values.len() ==> sendable(#[trigger] values[i], depth + 1),
    decreases MAX_NESTING_DEPTH + 1 - depth, 0int, count,
{
    if count > 0 && depth <= MAX_NESTING_DEPTH {
        complete_elements_can_be_sent(s, start, (count - 1) as nat, depth);
        elements_bounds(s, start, (count - 1) as nat, depth);
        if let Reading::Complete(_, offset) = elements_at(s, start, (count - 1) as nat, depth) {
            complete_frames_can_be_sent(s, offset, depth + 1);
        }
    }
}

} // verus!
