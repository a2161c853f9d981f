//! Incremental parsing of RESP requests out of a read buffer.

use crate::buffers::{advance, buffer_slice, buffered};
use crate::frame::{array_value, frame_values, Frame, FrameValue};
use crate::grammar::{
    bulk_string_at, elements_at, elements_bounds, elements_failure_persists, first_crlf,
    first_crlf_is_first, first_crlf_shifts, frame_at, frame_bounds, frame_shifts, leading_elements,
    length_at, length_bounds, Fault, LengthKind, Reading, ARRAY_PREFIX, BULK_STRING_PREFIX, CR, LF,
    MAX_NESTING_DEPTH,
};
use crate::text::{ascii_chars, is_utf8, parse_i64, push_decimal, push_hex_byte, signed_decimal};
use crate::wire::{complete_frames_can_be_sent, sendable};
use bytes::BytesMut;
use vstd::prelude::*;
use vstd::slice::slice_subrange;

verus! {

/// Whether a result reports the given fault.
pub open spec fn reports<T>(result: Result<T, String>, fault: Fault) -> bool {
    result matches Err(message) && message@ == fault.message()
}

/// Parses one RESP frame from the front of `buffer`.
///
/// Complete frames are consumed. Incomplete frames return `Ok(None)` without
/// modifying `buffer`, allowing the TCP read loop to append more data. Invalid
/// frames are reported without modifying `buffer` either.
pub fn parse_frame(buffer: &mut BytesMut) -> (result: Result<Option<Frame>, String>)
    ensures
        match frame_at(buffered(*old(buffer)), 0, 0) {
            Reading::Complete(value, end) => {
                &&& result matches Ok(Some(frame)) && frame@ == value
                &&& buffered(*final(buffer)) == buffered(*old(buffer)).skip(end)
            },
            Reading::Incomplete => {
                &&& result matches Ok(None)
                &&& buffered(*final(buffer)) == buffered(*old(buffer))
            },
            Reading::Invalid(fault) => {
                &&& reports(result, fault)
                &&& buffered(*final(buffer)) == buffered(*old(buffer))
            },
        },
{
    match validate_frame(buffer_slice(buffer), 0, 0) {
        Err(message) => Err(message),
        Ok(None) => Ok(None),
        Ok(Some(_)) => match consume_frame(buffer, 0) {
            Ok(frame) => Ok(Some(frame)),
            Err(message) => Err(message),
        },
    }
}

/// Takes the frame at the front of `buffer`, inside `depth` arrays, out of it. The payloads of bulk
/// strings keep sharing the buffer's storage. The frame has to be complete, as [`validate_frame`]
/// tells; then it is made of bulk strings, arrays and nulls alone, and is not nested too deeply.
/// A depth beyond [`MAX_NESTING_DEPTH`] is reported.
pub fn consume_frame(buffer: &mut BytesMut, depth: usize) -> (result: Result<Frame, String>)
    requires
        depth <= MAX_NESTING_DEPTH ==> frame_at(buffered(*old(buffer)), 0, depth as nat) is Complete,
    ensures
        depth > MAX_NESTING_DEPTH ==> {
            &&& reports(result, Fault::NestingLimit)
            &&& buffered(*final(buffer)) == buffered(*old(buffer))
        },
        frame_at(buffered(*old(buffer)), 0, depth as nat) matches Reading::Complete(value, end) ==> {
            &&& result matches Ok(frame) && frame@ == value && sendable(frame@, depth as nat)
            &&& buffered(*final(buffer)) == buffered(*old(buffer)).skip(end)
        },
    decreases MAX_NESTING_DEPTH + 1 - depth,
{
    proof {
        complete_frames_can_be_sent(buffered(*buffer), 0, depth as nat);
    }
    if depth > MAX_NESTING_DEPTH {
        return Err("RESP array nesting limit exceeded".to_owned());
    }
    let ghost input = buffered(*buffer);
    let prefix = buffer_slice(buffer)[0];
    let (length, payload_offset) = match parse_length(buffer_slice(buffer), 0) {
        Ok(Some(header)) => header,
        Ok(None) => {
            return Err("missing RESP length CRLF".to_owned());
        },
        Err(message) => {
            return Err(message);
        },
    };
    proof {
        length_bounds(input, 0);
    }
    advance(buffer, payload_offset);
    if length == -1 {
        return Ok(Frame::Null);
    }
    if prefix == BULK_STRING_PREFIX {
        let length = match non_negative_length(length, "bulk string") {
            Ok(length) => length,
            Err(message) => {
                return Err(message);
            },
        };
        let payload = buffer.split_to(length).freeze();
        advance(buffer, 2);
        proof {
            assert(input.skip(payload_offset as int).take(length as int) =~= input.subrange(
                payload_offset as int,
                payload_offset + length,
            ));
            assert(buffered(*buffer) =~= input.skip(payload_offset + length + 2));
        }
        Ok(Frame::BulkString(payload))
    } else {
        let count = match non_negative_length(length, "array") {
            Ok(count) => count,
            Err(message) => {
                return Err(message);
            },
        };
        let mut elements: Vec<Frame> = Vec::with_capacity(count);
        let mut seen: usize = 0;
        assert(frame_values(elements@) =~= Seq::<FrameValue>::empty());
        while seen < count
            invariant
                seen <= count,
                depth <= MAX_NESTING_DEPTH,
                payload_offset <= input.len(),
                elements_at(input, payload_offset as int, count as nat, depth as nat) is Complete,
                elements_at(input, payload_offset as int, seen as nat, depth as nat) matches Reading::Complete(
                    values,
                    end,
                ) && values == frame_values(elements@) && buffered(*buffer) == input.skip(end),
            decreases count - seen,
        {
            let ghost start = payload_offset as int;
            let ghost offset = elements_at(input, start, seen as nat, depth as nat)->Complete_1;
            proof {
                leading_elements(input, start, (seen + 1) as nat, count as nat, depth as nat);
                elements_bounds(input, start, seen as nat, depth as nat);
                frame_shifts(input, offset, (depth + 1) as nat, offset);
                frame_bounds(input, offset, (depth + 1) as nat);
            }
            let ghost before = elements@;
            match consume_frame(buffer, depth + 1) {
                Ok(element) => {
                    elements.push(element);
                    proof {
                        assert(frame_values(elements@) =~= frame_values(before).push(element@));
                        let end = frame_at(input, offset, (depth + 1) as nat)->Complete_1;
                        assert(input.skip(offset).skip(end - offset) =~= input.skip(end));
                    }
                },
                Err(message) => {
                    return Err(message);
                },
            }
            seen = seen + 1;
        }
        proof {
            array_value(elements);
        }
        Ok(Frame::Array(elements))
    }
}

/// Measures the frame at `offset`, inside `depth` arrays.
pub fn validate_frame(input: &[u8], offset: usize, depth: usize) -> (result: Result<
    Option<usize>,
    String,
>)
    ensures
        match frame_at(input@, offset as int, depth as nat) {
            Reading::Complete(_, end) => result matches Ok(Some(len)) && offset + len == end,
            Reading::Incomplete => result matches Ok(None),
            Reading::Invalid(fault) => reports(result, fault),
        },
    decreases MAX_NESTING_DEPTH + 1 - depth, 1int,
{
    if depth > MAX_NESTING_DEPTH {
        return Err("RESP array nesting limit exceeded".to_owned());
    }
    if offset >= input.len() {
        return Ok(None);
    }
    let prefix = input[offset];
    match parse_length(input, offset) {
        Err(message) => Err(message),
        Ok(None) => Ok(None),
        Ok(Some((length, payload_offset))) => {
            proof {
                length_bounds(input@, offset as int);
            }
            if prefix == BULK_STRING_PREFIX {
                validate_bulk_string(input, offset, payload_offset, length)
            } else if prefix == ARRAY_PREFIX {
                proof {
                    if length >= 0 {
                        elements_bounds(input@, payload_offset as int, length as nat, depth as nat);
                    }
                }
                validate_array(input, offset, payload_offset, length, depth)
            } else {
                let mut message = "unsupported RESP type byte: 0x".to_owned();
                push_hex_byte(&mut message, prefix);
                Err(message)
            }
        },
    }
}

/// Measures a bulk string whose length is known, type byte and length included.
pub fn validate_bulk_string(
    input: &[u8],
    frame_offset: usize,
    payload_offset: usize,
    length: i64,
) -> (result: Result<Option<usize>, String>)
    requires
        bulk_string_at(input@, payload_offset as int, length) matches Reading::Complete(_, end) ==> frame_offset
            <= end,
    ensures
        match bulk_string_at(input@, payload_offset as int, length) {
            Reading::Complete(_, end) => result matches Ok(Some(len)) && frame_offset + len == end,
            Reading::Incomplete => result matches Ok(None),
            Reading::Invalid(fault) => reports(result, fault),
        },
{
    if length == -1 {
        return Ok(Some(payload_offset - frame_offset));
    }
    let length = match non_negative_length(length, "bulk string") {
        Ok(length) => length,
        Err(message) => {
            return Err(message);
        },
    };
    let payload_end = match payload_offset.checked_add(length) {
        Some(payload_end) => payload_end,
        None => {
            return Err("bulk string length overflow".to_owned());
        },
    };
    let frame_end = match payload_end.checked_add(2) {
        Some(frame_end) => frame_end,
        None => {
            return Err("bulk string length overflow".to_owned());
        },
    };
    if input.len() < frame_end {
        return Ok(None);
    }
    if input[payload_end] != CR || input[payload_end + 1] != LF {
        return Err("bulk string payload is not terminated by CRLF".to_owned());
    }
    Ok(Some(frame_end - frame_offset))
}

/// Measures an array whose length is known, type byte and length included.
pub fn validate_array(
    input: &[u8],
    frame_offset: usize,
    first_element: usize,
    length: i64,
    depth: usize,
) -> (result: Result<Option<usize>, String>)
    requires
        length == -1 ==> frame_offset <= first_element,
        length > 0 ==> depth < usize::MAX,
        0 <= length <= usize::MAX ==> (elements_at(
            input@,
            first_element as int,
            length as nat,
            depth as nat,
        ) matches Reading::Complete(_, end) ==> frame_offset <= end),
    ensures
        length == -1 ==> (result matches Ok(Some(len)) && frame_offset + len == first_element),
        length != -1 && !(0 <= length <= usize::MAX) ==> reports(
            result,
            Fault::InvalidLength(LengthKind::Array, length),
        ),
        0 <= length <= usize::MAX ==> match elements_at(
            input@,
            first_element as int,
            length as nat,
            depth as nat,
        ) {
            Reading::Complete(_, end) => result matches Ok(Some(len)) && frame_offset + len == end,
            Reading::Incomplete => result matches Ok(None),
            Reading::Invalid(fault) => reports(result, fault),
        },
    decreases MAX_NESTING_DEPTH + 1 - depth, 0int,
{
    if length == -1 {
        return Ok(Some(first_element - frame_offset));
    }
    let count = match non_negative_length(length, "array") {
        Ok(count) => count,
        Err(message) => {
            return Err(message);
        },
    };
    if count > 0 && depth > MAX_NESTING_DEPTH {
        return Err("RESP array nesting limit exceeded".to_owned());
    }
    let input_len = input.len();
    let mut element_offset = first_element;
    let mut seen: usize = 0;
    while seen < count
        invariant
            seen <= count,
            count == length,
            count > 0 ==> depth <= MAX_NESTING_DEPTH,
            input_len == input@.len(),
            first_element <= element_offset,
            elements_at(input@, first_element as int, seen as nat, depth as nat) matches Reading::Complete(
                _,
                end,
            ) && end == element_offset,
        decreases count - seen,
    {
        let element = validate_frame(input, element_offset, depth + 1);
        proof {
            frame_bounds(input@, element_offset as int, (depth + 1) as nat);
            if !(elements_at(input@, first_element as int, (seen + 1) as nat, depth as nat)
                is Complete) {
                elements_failure_persists(
                    input@,
                    first_element as int,
                    (seen + 1) as nat,
                    count as nat,
                    depth as nat,
                );
            }
        }
        match element {
            Err(message) => {
                return Err(message);
            },
            Ok(None) => {
                return Ok(None);
            },
            Ok(Some(element_len)) => {
                element_offset = element_offset + element_len;
            },
        }
        seen = seen + 1;
    }
    Ok(Some(element_offset - frame_offset))
}

/// Reads the length behind the type byte at `offset`, and finds where it ends.
pub fn parse_length(input: &[u8], offset: usize) -> (result: Result<Option<(i64, usize)>, String>)
    requires
        offset < input@.len() || offset == usize::MAX,
    ensures
        offset == usize::MAX ==> (result matches Err(message) && message@ == "frame offset overflow"@),
        offset < input@.len() ==> match length_at(input@, offset as int) {
            Reading::Complete(length, payload) => {
                result matches Ok(Some((value, payload_offset))) && value == length
                    && payload_offset == payload
            },
            Reading::Incomplete => result matches Ok(None),
            Reading::Invalid(fault) => reports(result, fault),
        },
{
    let input_len = input.len();
    let header_start = match offset.checked_add(1) {
        Some(header_start) => header_start,
        None => {
            return Err("frame offset overflow".to_owned());
        },
    };
    let rest = slice_subrange(input, header_start, input_len);
    assert(rest@ =~= input@.skip(header_start as int));
    proof {
        first_crlf_shifts(input@, header_start as int, header_start as int);
        first_crlf_is_first(input@, header_start as int);
    }
    let relative_end = match find_crlf(rest) {
        Some(relative_end) => relative_end,
        None => {
            return Ok(None);
        },
    };
    let header_end = header_start + relative_end;
    let text = slice_subrange(input, header_start, header_end);
    if !is_utf8(text) {
        return Err("RESP length is not valid ASCII".to_owned());
    }
    match parse_i64(text) {
        None => Err("RESP length is not a valid integer".to_owned()),
        Some(length) => Ok(Some((length, header_end + 2))),
    }
}

/// Turns a length into a size, where it is one.
pub fn non_negative_length(length: i64, kind: &str) -> (result: Result<usize, String>)
    ensures
        0 <= length <= usize::MAX ==> (result matches Ok(size) && size == length),
        !(0 <= length <= usize::MAX) ==> (result matches Err(message) && message@ == "invalid "@
            + kind@ + " length: "@ + ascii_chars(signed_decimal(length as int))),
{
    if 0 <= length && length as u64 as u128 <= usize::MAX as u128 {
        Ok(length as usize)
    } else {
        let mut message = "invalid ".to_owned();
        message.append(kind);
        message.append(" length: ");
        push_decimal(&mut message, length);
        Err(message)
    }
}

/// Finds the first CRLF.
pub fn find_crlf(input: &[u8]) -> (position: Option<usize>)
    ensures
        match first_crlf(input@, 0) {
            Some(end) => position matches Some(found) && found == end,
            None => position is None,
        },
{
    let mut i: usize = 0;
    while i < input.len() && input.len() - i >= 2
        invariant
            i <= input@.len(),
            first_crlf(input@, 0) == first_crlf(input@, i as int),
        decreases input.len() - i,
    {
        if input[i] == CR && input[i + 1] == LF {
            return Some(i);
        }
        i = i + 1;
    }
    None
}

} // verus!
