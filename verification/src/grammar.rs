//! The grammar of RESP requests: which byte strings are complete frames, which are the beginning
//! of one, and which can never become one.

use crate::frame::FrameValue;
use crate::text::{ascii_chars, hex_byte, i64_value, signed_decimal};
use vstd::prelude::*;
use vstd::utf8::valid_utf8;

verus! {

/// How deeply arrays may be nested.
pub const MAX_NESTING_DEPTH: usize = 128;

/// The type byte of bulk strings, `$`.
pub const BULK_STRING_PREFIX: u8 = 36;

/// The type byte of arrays, `*`.
pub const ARRAY_PREFIX: u8 = 42;

/// Carriage return.
pub const CR: u8 = 13;

/// Line feed.
pub const LF: u8 = 10;

/// The two kinds of value that start with a length.
pub enum LengthKind {
    BulkString,
    Array,
}

/// Why a byte string can never become a frame.
pub enum Fault {
    /// Arrays are nested more than [`MAX_NESTING_DEPTH`] deep.
    NestingLimit,
    /// The text of a length is not UTF-8.
    LengthNotText,
    /// The text of a length is not a signed 64-bit decimal integer.
    LengthNotInteger,
    /// A length is neither -1 nor a size that the machine can address.
    InvalidLength(LengthKind, i64),
    /// The end of a bulk string lies beyond what the machine can address.
    LengthOverflow,
    /// The payload of a bulk string is not followed by CRLF.
    MissingTerminator,
    /// The first byte names no supported type.
    UnsupportedType(u8),
}

impl Fault {
    /// The text in which the fault is reported.
    pub open spec fn message(self) -> Seq<char> {
        match self {
            Fault::NestingLimit => "RESP array nesting limit exceeded"@,
            Fault::LengthNotText => "RESP length is not valid ASCII"@,
            Fault::LengthNotInteger => "RESP length is not a valid integer"@,
            Fault::InvalidLength(LengthKind::BulkString, length) => "invalid "@ + "bulk string"@
                + " length: "@ + ascii_chars(signed_decimal(length as int)),
            Fault::InvalidLength(LengthKind::Array, length) => "invalid "@ + "array"@ + " length: "@
                + ascii_chars(signed_decimal(length as int)),
            Fault::LengthOverflow => "bulk string length overflow"@,
            Fault::MissingTerminator => "bulk string payload is not terminated by CRLF"@,
            Fault::UnsupportedType(prefix) => "unsupported RESP type byte: 0x"@ + hex_byte(prefix),
        }
    }
}

/// What can be read at one place of a byte string.
pub enum Reading<T> {
    /// A value, and the offset right behind it.
    Complete(T, int),
    /// More bytes are needed.
    Incomplete,
    /// No further bytes can help.
    Invalid(Fault),
}

/// Whether a carriage return and a line feed stand at `i`.
pub open spec fn crlf_at(s: Seq<u8>, i: int) -> bool {
    0 <= i && i + 1 < s.len() && s[i] == CR && s[i + 1] == LF
}

/// The offset of the first CRLF at or behind `from`.
pub open spec fn first_crlf(s: Seq<u8>, from: int) -> Option<int>
    decreases s.len() - from,
{
    if from + 1 >= s.len() {
        None
    } else if crlf_at(s, from) {
        Some(from)
    } else {
        first_crlf(s, from + 1)
    }
}

/// The length that stands between the type byte at `offset` and the next CRLF.
pub open spec fn length_at(s: Seq<u8>, offset: int) -> Reading<i64> {
    match first_crlf(s, offset + 1) {
        None => Reading::Incomplete,
        Some(end) => {
            let text = s.subrange(offset + 1, end);
            if !valid_utf8(text) {
                Reading::Invalid(Fault::LengthNotText)
            } else {
                match i64_value(text) {
                    None => Reading::Invalid(Fault::LengthNotInteger),
                    Some(length) => Reading::Complete(length, end + 2),
                }
            }
        },
    }
}

/// The bulk string of the given length whose payload starts at `payload`.
pub open spec fn bulk_string_at(s: Seq<u8>, payload: int, length: i64) -> Reading<FrameValue> {
    if length == -1 {
        Reading::Complete(FrameValue::Null, payload)
    } else if !(0 <= length <= usize::MAX) {
        Reading::Invalid(Fault::InvalidLength(LengthKind::BulkString, length))
    } else if payload + length + 2 > usize::MAX {
        Reading::Invalid(Fault::LengthOverflow)
    } else if s.len() < payload + length + 2 {
        Reading::Incomplete
    } else if !crlf_at(s, payload + length) {
        Reading::Invalid(Fault::MissingTerminator)
    } else {
        Reading::Complete(
            FrameValue::BulkString(s.subrange(payload, payload + length)),
            payload + length + 2,
        )
    }
}

/// The frame at `offset`, inside `depth` arrays.
pub open spec fn frame_at(s: Seq<u8>, offset: int, depth: nat) -> Reading<FrameValue>
    decreases MAX_NESTING_DEPTH + 1 - depth, 1int, 0int,
{
    if depth > MAX_NESTING_DEPTH {
        Reading::Invalid(Fault::NestingLimit)
    } else if offset >= s.len() {
        Reading::Incomplete
    } else {
        match length_at(s, offset) {
            Reading::Incomplete => Reading::Incomplete,
            Reading::Invalid(fault) => Reading::Invalid(fault),
            Reading::Complete(length, payload) => if s[offset] == BULK_STRING_PREFIX {
                bulk_string_at(s, payload, length)
            } else if s[offset] == ARRAY_PREFIX {
                if length == -1 {
                    Reading::Complete(FrameValue::Null, payload)
                } else if !(0 <= length <= usize::MAX) {
                    Reading::Invalid(Fault::InvalidLength(LengthKind::Array, length))
                } else {
                    match elements_at(s, payload, length as nat, depth) {
                        Reading::Incomplete => Reading::Incomplete,
                        Reading::Invalid(fault) => Reading::Invalid(fault),
                        Reading::Complete(elements, end) => Reading::Complete(
                            FrameValue::Array(elements),
                            end,
                        ),
                    }
                }
            } else {
                Reading::Invalid(Fault::UnsupportedType(s[offset]))
            },
        }
    }
}

/// The first `count` elements of an array that itself stands inside `depth` arrays; the first of
/// them starts at `start`.
pub open spec fn elements_at(s: Seq<u8>, start: int, count: nat, depth: nat) -> Reading<
    Seq<FrameValue>,
>
    decreases MAX_NESTING_DEPTH + 1 - depth, 0int, count,
{
    if count == 0 {
        Reading::Complete(Seq::empty(), start)
    } else if depth > MAX_NESTING_DEPTH {
        Reading::Invalid(Fault::NestingLimit)
    } else {
        match elements_at(s, start, (count - 1) as nat, depth) {
            Reading::Incomplete => Reading::Incomplete,
            Reading::Invalid(fault) => Reading::Invalid(fault),
            Reading::Complete(elements, offset) => match frame_at(s, offset, depth + 1) {
                Reading::Incomplete => Reading::Incomplete,
                Reading::Invalid(fault) => Reading::Invalid(fault),
                Reading::Complete(element, end) => Reading::Complete(elements.push(element), end),
            },
        }
    }
}

/// What the first CRLF is: nothing before it is one.
pub proof fn first_crlf_is_first(s: Seq<u8>, from: int)
    requires
        0 <= from,
    ensures
        match first_crlf(s, from) {
            Some(end) => from <= end && crlf_at(s, end) && forall|i: int|
                from <= i < end ==> !#[trigger] crlf_at(s, i),
            None => forall|i: int| from <= i ==> !#[trigger] crlf_at(s, i),
        },
    decreases s.len() - from,
{
    if from + 1 < s.len() && !crlf_at(s, from) {
        first_crlf_is_first(s, from + 1);
    }
}

/// A length takes at least four bytes together with its type byte and CRLF.
pub proof fn length_bounds(s: Seq<u8>, offset: int)
    requires
        0 <= offset,
    ensures
        length_at(s, offset) matches Reading::Complete(_, payload) ==> offset + 4 <= payload
            <= s.len(),
{
    first_crlf_is_first(s, offset + 1);
}

/// A complete frame ends within the input and takes at least four bytes.
pub proof fn frame_bounds(s: Seq<u8>, offset: int, depth: nat)
    requires
        0 <= offset,
    ensures
        frame_at(s, offset, depth) matches Reading::Complete(_, end) ==> offset + 4 <= end
            <= s.len(),
    decreases MAX_NESTING_DEPTH + 1 - depth, 1int, 0int,
{
    if depth <= MAX_NESTING_DEPTH && offset < s.len() {
        length_bounds(s, offset);
        if let Reading::Complete(length, payload) = length_at(s, offset) {
            if s[offset] == ARRAY_PREFIX && 0 <= length <= usize::MAX {
                elements_bounds(s, payload, length as nat, depth);
            }
        }
    }
}

/// Complete array elements are as many as asked for, and take at least four bytes each: an array
/// has no more elements than its bytes pay for.
pub proof fn elements_bounds(s: Seq<u8>, start: int, count: nat, depth: nat)
    requires
        0 <= start <= s.len(),
    ensures
        elements_at(s, start, count, depth) matches Reading::Complete(elements, end) ==> {
            &&& elements.len() == count
            &&& start + 4 * count <= end <= s.len()
        },
    decreases MAX_NESTING_DEPTH + 1 - depth, 0int, count,
{
    if count > 0 && depth <= MAX_NESTING_DEPTH {
        elements_bounds(s, start, (count - 1) as nat, depth);
        if let Reading::Complete(_, offset) = elements_at(s, start, (count - 1) as nat, depth) {
            frame_bounds(s, offset, depth + 1);
        }
    }
}

/// Once an element is missing or invalid, every longer run of elements is so too.
pub proof fn elements_failure_persists(
    s: Seq<u8>,
    start: int,
    short: nat,
    long: nat,
    depth: nat,
)
    requires
        short <= long,
        !(elements_at(s, start, short, depth) is Complete),
    ensures
        elements_at(s, start, long, depth) == elements_at(s, start, short, depth),
    decreases long,
{
    if short < long {
        elements_failure_persists(s, start, short, (long - 1) as nat, depth);
    }
}

/// Every run of leading elements of a complete array is complete.
pub proof fn leading_elements(s: Seq<u8>, start: int, short: nat, long: nat, depth: nat)
    requires
        short <= long,
        elements_at(s, start, long, depth) is Complete,
    ensures
        elements_at(s, start, short, depth) is Complete,
{
    if !(elements_at(s, start, short, depth) is Complete) {
        elements_failure_persists(s, start, short, long, depth);
    }
}

/// Dropping bytes in front of a CRLF moves it and nothing else.
pub proof fn first_crlf_shifts(s: Seq<u8>, from: int, dropped: int)
    requires
        0 <= dropped <= from,
        dropped <= s.len(),
    ensures
        first_crlf(s.skip(dropped), from - dropped) == (match first_crlf(s, from) {
            Some(end) => Some(end - dropped),
            None => None,
        }),
    decreases s.len() - from,
{
    if from + 1 < s.len() && !crlf_at(s, from) {
        first_crlf_shifts(s, from + 1, dropped);
    }
}

/// A length reads the same after bytes in front of it were dropped.
proof fn length_shifts(s: Seq<u8>, offset: int, dropped: int)
    requires
        0 <= dropped <= offset,
        dropped <= s.len(),
    ensures
        length_at(s.skip(dropped), offset - dropped) == (match length_at(s, offset) {
            Reading::Complete(length, payload) => Reading::Complete(length, payload - dropped),
            other => other,
        }),
{
    first_crlf_shifts(s, offset + 1, dropped);
    first_crlf_is_first(s, offset + 1);
    if let Some(end) = first_crlf(s, offset + 1) {
        assert(s.skip(dropped).subrange(offset - dropped + 1, end - dropped) =~= s.subrange(
            offset + 1,
            end,
        ));
    }
}

/// A complete frame reads the same after bytes in front of it were dropped.
pub proof fn frame_shifts(s: Seq<u8>, offset: int, depth: nat, dropped: int)
    requires
        0 <= dropped <= offset,
        frame_at(s, offset, depth) is Complete,
    ensures
        frame_at(s, offset, depth) matches Reading::Complete(value, end) ==> frame_at(
            s.skip(dropped),
            offset - dropped,
            depth,
        ) == Reading::Complete(value, end - dropped),
    decreases MAX_NESTING_DEPTH + 1 - depth, 1int, 0int,
{
    length_shifts(s, offset, dropped);
    length_bounds(s, offset);
    if let Reading::Complete(length, payload) = length_at(s, offset) {
        if s[offset] == ARRAY_PREFIX && 0 <= length <= usize::MAX {
            elements_shift(s, payload, length as nat, depth, dropped);
        } else if s[offset] == BULK_STRING_PREFIX && length != -1 {
            assert(s.skip(dropped).subrange(payload - dropped, payload - dropped + length)
                =~= s.subrange(payload, payload + length));
        }
    }
}

/// Complete array elements read the same after bytes in front of them were dropped.
proof fn elements_shift(s: Seq<u8>, start: int, count: nat, depth: nat, dropped: int)
    requires
        0 <= dropped <= start <= s.len(),
        elements_at(s, start, count, depth) is Complete,
    ensures
        elements_at(s, start, count, depth) matches Reading::Complete(values, end) ==> elements_at(
            s.skip(dropped),
            start - dropped,
            count,
            depth,
        ) == Reading::Complete(values, end - dropped),
    decreases MAX_NESTING_DEPTH + 1 - depth, 0int, count,
{
    if count > 0 {
        let fewer = (count - 1) as nat;
        elements_shift(s, start, fewer, depth, dropped);
        elements_bounds(s, start, fewer, depth);
        if let Reading::Complete(_, offset) = elements_at(s, start, fewer, depth) {
            frame_shifts(s, offset, depth + 1, dropped);
        }
    }
}

/// Appending bytes leaves a CRLF that is already there in its place.
proof fn first_crlf_extends(s: Seq<u8>, more: Seq<u8>, from: int)
    requires
        0 <= from,
        first_crlf(s, from) is Some,
    ensures
        first_crlf(s + more, from) == first_crlf(s, from),
    decreases s.len() - from,
{
    if !crlf_at(s, from) {
        first_crlf_extends(s, more, from + 1);
    }
}

/// A length that is decided stays so when more bytes arrive.
proof fn length_extends(s: Seq<u8>, more: Seq<u8>, offset: int)
    requires
        0 <= offset,
        !(length_at(s, offset) is Incomplete),
    ensures
        length_at(s + more, offset) == length_at(s, offset),
{
    first_crlf_extends(s, more, offset + 1);
    first_crlf_is_first(s, offset + 1);
    if let Some(end) = first_crlf(s, offset + 1) {
        assert((s + more).subrange(offset + 1, end) =~= s.subrange(offset + 1, end));
    }
}

/// A frame that is complete or invalid stays so, with the same value or fault, when more bytes
/// arrive behind it: only an incomplete frame depends on what the peer sends next.
pub proof fn frame_extends(s: Seq<u8>, more: Seq<u8>, offset: int, depth: nat)
    requires
        0 <= offset,
        !(frame_at(s, offset, depth) is Incomplete),
    ensures
        frame_at(s + more, offset, depth) == frame_at(s, offset, depth),
    decreases MAX_NESTING_DEPTH + 1 - depth, 1int, 0int,
{
    if depth <= MAX_NESTING_DEPTH {
        length_extends(s, more, offset);
        length_bounds(s, offset);
        if let Reading::Complete(length, payload) = length_at(s, offset) {
            if s[offset] == ARRAY_PREFIX && 0 <= length <= usize::MAX {
                elements_extend(s, more, payload, length as nat, depth);
            } else if s[offset] == BULK_STRING_PREFIX && 0 <= length && payload + length + 2 <= s.len() {
                assert((s + more).subrange(payload, payload + length) =~= s.subrange(
                    payload,
                    payload + length,
                ));
            }
        }
    }
}

/// Array elements that are decided stay so when more bytes arrive.
proof fn elements_extend(s: Seq<u8>, more: Seq<u8>, start: int, count: nat, depth: nat)
    requires
        0 <= start <= s.len(),
        !(elements_at(s, start, count, depth) is Incomplete),
    ensures
        elements_at(s + more, start, count, depth) == elements_at(s, start, count, depth),
    decreases MAX_NESTING_DEPTH + 1 - depth, 0int, count,
{
    if count > 0 && depth <= MAX_NESTING_DEPTH {
        let fewer = (count - 1) as nat;
        elements_extend(s, more, start, fewer, depth);
        elements_bounds(s, start, fewer, depth);
        if let Reading::Complete(_, offset) = elements_at(s, start, fewer, depth) {
            frame_extends(s, more, offset, depth + 1);
        }
    }
}

/// What is read, where everything lies `by` bytes further to the front.
pub open spec fn moved<T>(reading: Reading<T>, by: int) -> Reading<T> {
    match reading {
        Reading::Complete(value, end) => Reading::Complete(value, end - by),
        Reading::Incomplete => Reading::Incomplete,
        Reading::Invalid(fault) => Reading::Invalid(fault),
    }
}

/// A frame reads the same after bytes in front of it were dropped, whether it is complete,
/// incomplete or invalid. This holds where no length can reach beyond what the machine can
/// address, as is the case with 64 bits.
pub proof fn frames_read_the_same_without_what_stands_before(s: Seq<u8>, offset: int, depth: nat, dropped: int)
    requires
        0 <= dropped <= offset,
        dropped <= s.len(),
        s.len() + i64::MAX + 2 <= usize::MAX,
    ensures
        frame_at(s.skip(dropped), offset - dropped, depth) == moved(frame_at(s, offset, depth), dropped),
    decreases MAX_NESTING_DEPTH + 1 - depth, 1int, 0int,
{
    if depth <= MAX_NESTING_DEPTH && offset < s.len() {
        length_shifts(s, offset, dropped);
        length_bounds(s, offset);
        if let Reading::Complete(length, payload) = length_at(s, offset) {
            if s[offset] == ARRAY_PREFIX && 0 <= length <= usize::MAX {
                elements_read_the_same_without_what_stands_before(s, payload, length as nat, depth, dropped);
            } else if s[offset] == BULK_STRING_PREFIX && length >= 0 && payload + length + 2 <= s.len() {
                assert(s.skip(dropped).subrange(payload - dropped, payload - dropped + length)
                    =~= s.subrange(payload, payload + length));
            }
        }
    }
}

/// Array elements read the same after bytes in front of them were dropped.
proof fn elements_read_the_same_without_what_stands_before(s: Seq<u8>, start: int, count: nat, depth: nat, dropped: int)
    requires
        0 <= dropped <= start <= s.len(),
        s.len() + i64::MAX + 2 <= usize::MAX,
    ensures
        elements_at(s.skip(dropped), start - dropped, count, depth) == moved(
            elements_at(s, start, count, depth),
            dropped,
        ),
    decreases MAX_NESTING_DEPTH + 1 - depth, 0int, count,
{
    if count > 0 && depth <= MAX_NESTING_DEPTH {
        let fewer = (count - 1) as nat;
        elements_read_the_same_without_what_stands_before(s, start, fewer, depth, dropped);
        elements_bounds(s, start, fewer, depth);
        if let Reading::Complete(_, offset) = elements_at(s, start, fewer, depth) {
            frames_read_the_same_without_what_stands_before(s, offset, depth + 1, dropped);
        }
    }
}

/// A frame that is not invalid reads the same inside fewer arrays.
pub proof fn frames_read_the_same_inside_fewer_arrays(s: Seq<u8>, offset: int, depth: nat, fewer: nat)
    requires
        fewer <= depth,
        !(frame_at(s, offset, depth) is Invalid),
    ensures
        frame_at(s, offset, fewer) == frame_at(s, offset, depth),
    decreases MAX_NESTING_DEPTH + 1 - depth, 1int, 0int,
{
    if offset < s.len() {
        if let Reading::Complete(length, payload) = length_at(s, offset) {
            if s[offset] == ARRAY_PREFIX && 0 <= length <= usize::MAX {
                elements_read_the_same_inside_fewer_arrays(s, payload, length as nat, depth, fewer);
            }
        }
    }
}

/// Array elements that are not invalid read the same inside fewer arrays.
proof fn elements_read_the_same_inside_fewer_arrays(s: Seq<u8>, start: int, count: nat, depth: nat, fewer: nat)
    requires
        fewer <= depth,
        !(elements_at(s, start, count, depth) is Invalid),
    ensures
        elements_at(s, start, count, fewer) == elements_at(s, start, count, depth),
    decreases MAX_NESTING_DEPTH + 1 - depth, 0int, count,
{
    if count > 0 {
        elements_read_the_same_inside_fewer_arrays(s, start, (count - 1) as nat, depth, fewer);
        if let Reading::Complete(_, offset) = elements_at(s, start, (count - 1) as nat, depth) {
            frames_read_the_same_inside_fewer_arrays(s, offset, depth + 1, fewer + 1);
        }
    }
}

/// No frame is read inside more arrays than may be nested, whatever the input.
pub proof fn nesting_is_limited(s: Seq<u8>, offset: int, depth: nat)
    requires
        depth > MAX_NESTING_DEPTH,
    ensures
        frame_at(s, offset, depth) == Reading::<FrameValue>::Invalid(Fault::NestingLimit),
{
}

} // verus!
