//! What the library promises, stated in bytes and numbers: laws that relate the results of calls,
//! and say what is read and written byte by byte.

use crate::buffers::bytes_of;
use crate::clock::{clamp_millis, is_time_after};
use crate::command::{command_of, Command, CommandValue};
use crate::entry::{next_access_count, CacheEntry, EntryValue};
use crate::eviction::{
    candidates, counts_are, keys_of, least_used, record_promotion, retire_oldest, rivals, take_sample, trims,
    Sample,
};
use crate::frame::{Frame, FrameValue};
use crate::grammar::{elements_at, frame_at, Fault, LengthKind, Reading};
use crate::map::{entries, records, ShardMap};
use crate::reply::{Reply, ReplyValue, Response};
use crate::store::{live_value, read_value_at, store_value, value_of};
use crate::text::{
    ascii_bytes, ascii_chars, decimal_bytes, hex_byte, i64_value, parse_i64, same_word, signed_decimal,
};
use bytes::Bytes;
use std::collections::VecDeque;
use std::time::{Duration, SystemTimeError};
use vstd::prelude::*;
use vstd::utf8::valid_utf8;

verus! {

/// A single digit denotes itself. One more digit at the end of a run of digits makes the number
/// that it denotes ten times as large and adds the digit; a number that does not fit in 64 bits is
/// none, and stays none.
pub proof fn digits_denote_by_position(digits: Seq<u8>, digit: u8)
    requires
        forall|i: int| 0 <= i < digits.len() ==> 48 <= #[trigger] digits[i] <= 57,
        48 <= digit <= 57,
    ensures
        i64_value(seq![digit]) == Some((digit - 48) as i64),
        digits.len() > 0 ==> match i64_value(digits) {
            Some(number) => {
                &&& number >= 0
                &&& 10 * number + (digit - 48) <= i64::MAX ==> i64_value(digits.push(digit)) == Some(
                    (10 * number + (digit - 48)) as i64,
                )
                &&& 10 * number + (digit - 48) > i64::MAX ==> i64_value(digits.push(digit)) is None
            },
            None => i64_value(digits.push(digit)) is None,
        },
{
    let one = seq![digit];
    assert(one.drop_last() =~= Seq::<u8>::empty());
    assert(crate::text::digits_value(one.drop_last()) == 0);
    assert(crate::text::digits_value(one) == digit - 48);
    if digits.len() > 0 {
        let longer = digits.push(digit);
        assert(longer.drop_last() =~= digits);
        assert(48 <= digits[0] <= 57);
        assert(longer[0] == digits[0]);
        assert forall|i: int| 0 <= i < longer.len() implies crate::text::is_digit(#[trigger] longer[i]) by {
            if i < digits.len() {
                assert(longer[i] == digits[i]);
            }
        }
    }
}

/// A plus sign in front of digits changes nothing. A minus sign makes the number negative, and the
/// smallest number, which has no positive counterpart, can be written too.
pub proof fn signs_are_read(digits: Seq<u8>)
    requires
        digits.len() > 0,
        forall|i: int| 0 <= i < digits.len() ==> 48 <= #[trigger] digits[i] <= 57,
    ensures
        i64_value(seq![43u8] + digits) == i64_value(digits),
        i64_value(digits) matches Some(number) ==> i64_value(seq![45u8] + digits) == Some((-number) as i64),
        i64_value(digits) is None ==> i64_value(seq![45u8] + digits) is None || i64_value(seq![45u8] + digits) == Some(i64::MIN),
{
    let plus = seq![43u8] + digits;
    let minus = seq![45u8] + digits;
    assert(plus.skip(1) =~= digits);
    assert(minus.skip(1) =~= digits);
    assert(48 <= digits[0] <= 57);
}

/// Only digits, with an optional sign in front of them, denote a number.
pub proof fn nothing_else_denotes_a_number(text: Seq<u8>)
    requires
        i64_value(text) is Some,
    ensures
        text.len() > 0,
        forall|i: int| 1 <= i < text.len() ==> 48 <= #[trigger] text[i] <= 57,
        48 <= text[0] <= 57 || (text.len() > 1 && (text[0] == 43 || text[0] == 45)),
{
    let digits = crate::text::unsigned_part(text);
    assert forall|i: int| 1 <= i < text.len() implies 48 <= #[trigger] text[i] <= 57 by {
        if crate::text::has_sign(text) {
            assert(crate::text::is_digit(digits[i - 1]));
        } else {
            assert(crate::text::is_digit(digits[i]));
        }
    }
    if !crate::text::has_sign(text) {
        assert(crate::text::is_digit(digits[0]));
    }
}

/// A text that is longer by one digit is read as ten times the number, and the digit added.
pub proof fn longer_digits_are_read_as_larger_numbers(
    text: &[u8],
    number: Option<i64>,
    longer: &[u8],
    larger: Option<i64>,
)
    requires
        call_ensures(parse_i64, (text,), number),
        call_ensures(parse_i64, (longer,), larger),
        text@.len() > 0,
        longer@.len() == text@.len() + 1,
        forall|i: int| 0 <= i < text@.len() ==> longer@[i] == #[trigger] text@[i],
        forall|i: int| 0 <= i < longer@.len() ==> 48 <= #[trigger] longer@[i] <= 57,
    ensures
        number is None ==> larger is None,
        number is Some && 10 * number->0 + (longer@[text@.len() as int] - 48) <= i64::MAX ==> larger is Some
            && larger->0 == 10 * number->0 + (longer@[text@.len() as int] - 48),
        number is Some && 10 * number->0 + (longer@[text@.len() as int] - 48) > i64::MAX ==> larger is None,
{
    assert forall|i: int| 0 <= i < text@.len() implies 48 <= #[trigger] text@[i] <= 57 by {
        assert(longer@[i] == text@[i]);
    }
    assert(longer@ =~= text@.push(longer@[text@.len() as int]));
    digits_denote_by_position(text@, longer@[text@.len() as int]);
}

/// Numbers below ten are written as one digit. A larger number is written as the number without
/// its last digit, and the last digit behind it; a negative one with a minus sign in front.
pub proof fn numbers_are_written_by_position(n: int)
    ensures
        0 <= n < 10 ==> signed_decimal(n) == seq![(48 + n) as u8],
        n >= 10 ==> signed_decimal(n) == signed_decimal(n / 10).push((48 + n % 10) as u8),
        n < 0 ==> signed_decimal(n) == seq![45u8] + signed_decimal(-n),
{
}

/// To write a number is to write the number without its last digit, and the last digit behind it.
pub proof fn larger_numbers_are_written_longer(n: u64, text: Vec<u8>, tenth: Vec<u8>)
    requires
        call_ensures(decimal_bytes, (n,), text),
        call_ensures(decimal_bytes, ((n / 10) as u64,), tenth),
    ensures
        text@.len() > 0,
        text@.last() == 48 + n % 10,
        n < 10 ==> text@.len() == 1,
        n >= 10 ==> text@.drop_last() == tenth@,
{
    if n >= 10 {
        assert(text@.drop_last() =~= tenth@);
    }
}

/// ASCII bytes and characters have the same codes.
pub proof fn characters_keep_their_codes(bytes: Seq<u8>, text: Seq<char>)
    ensures
        ascii_chars(bytes).len() == bytes.len(),
        forall|i: int| 0 <= i < bytes.len() ==> #[trigger] ascii_chars(bytes)[i] == bytes[i] as char,
        ascii_bytes(text).len() == text.len(),
        forall|i: int| 0 <= i < text.len() ==> #[trigger] ascii_bytes(text)[i] == text[i] as u8,
{
}

/// A byte is written as its high and its low hexadecimal digit.
pub proof fn bytes_are_written_in_hexadecimal(b: u8)
    ensures
        hex_byte(b).len() == 2,
        hex_byte(b)[0] == "0123456789abcdef"@[b as int / 16],
        hex_byte(b)[1] == "0123456789abcdef"@[b as int % 16],
{
    reveal_strlit("0123456789abcdef");
}

/// Two words are the same if and only if they have the same length and every two bytes at the same
/// place are equal or an upper and a lower case form of one letter.
pub proof fn words_are_the_same_up_to_case(a: Seq<u8>, b: Seq<u8>)
    ensures
        same_word(a, b) <==> {
            &&& a.len() == b.len()
            &&& forall|i: int| 0 <= i < a.len() ==> {
                ||| #[trigger] a[i] == b[i]
                ||| 65 <= a[i] <= 90 && b[i] == a[i] + 32
                ||| 65 <= b[i] <= 90 && a[i] == b[i] + 32
            }
        },
{
    let lower = |x: u8| crate::text::ascii_lower(x);
    let la = a.map_values(|x: u8| crate::text::ascii_lower(x));
    let lb = b.map_values(|x: u8| crate::text::ascii_lower(x));
    if same_word(a, b) {
        assert(la.len() == lb.len());
        assert forall|i: int| 0 <= i < a.len() implies {
            ||| #[trigger] a[i] == b[i]
            ||| 65 <= a[i] <= 90 && b[i] == a[i] + 32
            ||| 65 <= b[i] <= 90 && a[i] == b[i] + 32
        } by {
            assert(la[i] == lb[i]);
        }
    }
    if a.len() == b.len() && forall|i: int| 0 <= i < a.len() ==> {
        ||| #[trigger] a[i] == b[i]
        ||| 65 <= a[i] <= 90 && b[i] == a[i] + 32
        ||| 65 <= b[i] <= 90 && a[i] == b[i] + 32
    } {
        assert forall|i: int| 0 <= i < la.len() implies la[i] == lb[i] by {
            assert(a[i] == b[i] || 65 <= a[i] <= 90 && b[i] == a[i] + 32 || 65 <= b[i] <= 90 && a[i] == b[i] + 32);
        }
        assert(la =~= lb);
    }
}

/// One more digit behind a negative number makes it ten times as small and subtracts the digit.
pub proof fn negative_digits_denote_by_position(digits: Seq<u8>, digit: u8)
    requires
        digits.len() > 0,
        forall|i: int| 0 <= i < digits.len() ==> 48 <= #[trigger] digits[i] <= 57,
        48 <= digit <= 57,
    ensures
        i64_value(seq![45u8, digit]) == Some((48 - digit) as i64),
        match i64_value(seq![45u8] + digits) {
            Some(number) => {
                &&& 10 * number - (digit - 48) >= i64::MIN ==> i64_value((seq![45u8] + digits).push(digit)) == Some(
                    (10 * number - (digit - 48)) as i64,
                )
                &&& 10 * number - (digit - 48) < i64::MIN ==> i64_value((seq![45u8] + digits).push(digit)) is None
            },
            None => i64_value((seq![45u8] + digits).push(digit)) is None,
        },
{
    let one = seq![digit];
    assert(one.drop_last() =~= Seq::<u8>::empty());
    assert(crate::text::digits_value(one.drop_last()) == 0);
    assert(crate::text::digits_value(one) == digit - 48);
    assert(seq![45u8, digit].skip(1) =~= one);
    let longer = digits.push(digit);
    assert(longer.drop_last() =~= digits);
    assert((seq![45u8] + digits).skip(1) =~= digits);
    assert((seq![45u8] + digits).push(digit).skip(1) =~= longer);
    assert forall|i: int| 0 <= i < longer.len() implies crate::text::is_digit(#[trigger] longer[i]) by {
        if i < digits.len() {
            assert(longer[i] == digits[i]);
        }
    }
}

/// Without a byte there is nothing to read yet, and with a type byte there is nothing to read
/// before the first line has ended; inside too many arrays nothing can be read at all.
pub proof fn frames_begin_with_a_line(s: Seq<u8>, offset: int, depth: nat)
    requires
        0 <= offset,
    ensures
        depth > 128 ==> frame_at(s, offset, depth) == Reading::<FrameValue>::Invalid(Fault::NestingLimit),
        depth <= 128 && offset >= s.len() ==> frame_at(s, offset, depth) is Incomplete,
        depth <= 128 && (forall|i: int| offset < i && i + 1 < s.len() ==> !(#[trigger] s[i] == 13 && s[i + 1] == 10))
            ==> frame_at(s, offset, depth) is Incomplete,
{
    crate::grammar::first_crlf_is_first(s, offset + 1);
    if depth <= 128 && offset < s.len() && (forall|i: int|
        offset < i && i + 1 < s.len() ==> !(#[trigger] s[i] == 13 && s[i + 1] == 10)) {
        if let Some(end) = crate::grammar::first_crlf(s, offset + 1) {
            assert(s[end] == 13 && s[end + 1] == 10);
        }
    }
}

/// What the first line of a frame is, and what follows from it. The line ends with the first
/// carriage return and line feed behind the type byte, at `end`.
pub proof fn the_first_line_decides(s: Seq<u8>, offset: int, depth: nat, end: int)
    requires
        0 <= offset < end,
        depth <= 128,
        end + 1 < s.len(),
        s[end] == 13,
        s[end + 1] == 10,
        forall|i: int| offset < i < end ==> !(#[trigger] s[i] == 13 && s[i + 1] == 10),
        s.len() + i64::MAX + 2 <= usize::MAX,
    ensures
        ({
            let text = s.subrange(offset + 1, end);
            let reading = frame_at(s, offset, depth);
            &&& !valid_utf8(text) ==> reading == Reading::<FrameValue>::Invalid(Fault::LengthNotText)
            &&& valid_utf8(text) && i64_value(text) is None ==> reading == Reading::<FrameValue>::Invalid(Fault::LengthNotInteger)
            &&& valid_utf8(text) && i64_value(text) is Some ==> {
                let length = i64_value(text)->0;
                let start = end + 2;
                &&& s[offset] != 36 && s[offset] != 42 ==> reading == Reading::<FrameValue>::Invalid(
                    Fault::UnsupportedType(s[offset]),
                )
                &&& s[offset] == 36 || s[offset] == 42 ==> (length == -1 ==> reading == Reading::Complete(FrameValue::Null, start))
                &&& s[offset] == 36 && length < -1 ==> reading == Reading::<FrameValue>::Invalid(
                    Fault::InvalidLength(LengthKind::BulkString, length),
                )
                &&& s[offset] == 42 && length < -1 ==> reading == Reading::<FrameValue>::Invalid(
                    Fault::InvalidLength(LengthKind::Array, length),
                )
                &&& s[offset] == 42 && length == 0 ==> reading == Reading::Complete(
                    FrameValue::Array(Seq::<FrameValue>::empty()),
                    start,
                )
                &&& s[offset] == 36 && length >= 0 && s.len() < start + length + 2 ==> reading is Incomplete
                &&& s[offset] == 36 && length >= 0 && s.len() >= start + length + 2 && !(s[start + length] == 13
                    && s[start + length + 1] == 10) ==> reading == Reading::<FrameValue>::Invalid(
                    Fault::MissingTerminator,
                )
                &&& s[offset] == 36 && length >= 0 && s.len() >= start + length + 2 && s[start + length] == 13
                    && s[start + length + 1] == 10 ==> reading == Reading::Complete(
                    FrameValue::BulkString(s.subrange(start, start + length)),
                    start + length + 2,
                )
            }
        }),
{
    crate::grammar::first_crlf_is_first(s, offset + 1);
    assert(crate::grammar::crlf_at(s, end));
    if let Some(first) = crate::grammar::first_crlf(s, offset + 1) {
        assert(s[first] == 13 && s[first + 1] == 10);
    }
    assert(crate::grammar::first_crlf(s, offset + 1) == Some(end));
}

/// The elements of an array follow its first line, one behind the other. An array is complete with
/// as many elements as its first line says, and is what its first element is that is not complete.
pub proof fn arrays_are_their_elements(
    s: Seq<u8>,
    offset: int,
    depth: nat,
    end: int,
    values: Seq<FrameValue>,
    offsets: Seq<int>,
)
    requires
        0 <= offset < end,
        depth <= 128,
        end + 1 < s.len(),
        s[offset] == 42,
        s[end] == 13,
        s[end + 1] == 10,
        forall|i: int| offset < i < end ==> !(#[trigger] s[i] == 13 && s[i + 1] == 10),
        valid_utf8(s.subrange(offset + 1, end)),
        i64_value(s.subrange(offset + 1, end)) is Some,
        0 <= values.len() <= i64_value(s.subrange(offset + 1, end))->0 <= usize::MAX,
        offsets.len() == values.len() + 1,
        offsets[0] == end + 2,
        forall|i: int| 0 <= i < values.len() ==> frame_at(s, offsets[i], depth + 1) == Reading::Complete(
            #[trigger] values[i],
            offsets[i + 1],
        ),
    ensures
        ({
            let length = i64_value(s.subrange(offset + 1, end))->0;
            let reading = frame_at(s, offset, depth);
            let next = frame_at(s, offsets.last(), depth + 1);
            &&& values.len() == length ==> reading == Reading::Complete(FrameValue::Array(values), offsets.last())
            &&& values.len() < length && next is Incomplete ==> reading is Incomplete
            &&& values.len() < length && next is Invalid ==> reading == next
        }),
{
    crate::grammar::first_crlf_is_first(s, offset + 1);
    assert(crate::grammar::crlf_at(s, end));
    if let Some(first) = crate::grammar::first_crlf(s, offset + 1) {
        assert(s[first] == 13 && s[first + 1] == 10);
    }
    let length = i64_value(s.subrange(offset + 1, end))->0;
    elements_are_read_in_turn(s, end + 2, depth, values, offsets);
    let next = frame_at(s, offsets.last(), depth + 1);
    if values.len() < length && !(next is Complete) {
        crate::grammar::elements_failure_persists(s, end + 2, values.len() + 1, length as nat, depth);
    }
}

/// Frames that stand one behind the other are read as the elements of an array.
proof fn elements_are_read_in_turn(s: Seq<u8>, start: int, depth: nat, values: Seq<FrameValue>, offsets: Seq<int>)
    requires
        depth <= 128,
        offsets.len() == values.len() + 1,
        offsets[0] == start,
        forall|i: int| 0 <= i < values.len() ==> frame_at(s, offsets[i], depth + 1) == Reading::Complete(
            #[trigger] values[i],
            offsets[i + 1],
        ),
    ensures
        elements_at(s, start, values.len(), depth) == Reading::Complete(values, offsets.last()),
    decreases values.len(),
{
    if values.len() > 0 {
        let fewer = values.drop_last();
        assert forall|i: int| 0 <= i < fewer.len() implies frame_at(s, offsets.drop_last()[i], depth + 1) == Reading::Complete(
            #[trigger] fewer[i],
            offsets.drop_last()[i + 1],
        ) by {
            assert(fewer[i] == values[i]);
        }
        elements_are_read_in_turn(s, start, depth, fewer, offsets.drop_last());
        let last = values.len() - 1;
        assert(frame_at(s, offsets[last], depth + 1) == Reading::Complete(values[last], offsets[last + 1]));
        assert(fewer.push(values[last]) =~= values);
    } else {
        assert(values =~= Seq::empty());
    }
}

/// A bulk string whose first line is made of digits is read with as many bytes as they denote.
pub proof fn bulk_strings_have_the_length_that_is_written(
    digits: Seq<u8>,
    payload: Seq<u8>,
    back: Seq<u8>,
    depth: nat,
)
    requires
        depth <= 128,
        digits.len() > 0,
        forall|i: int| 0 <= i < digits.len() ==> 48 <= #[trigger] digits[i] <= 57,
        i64_value(digits) is Some,
        i64_value(digits)->0 == payload.len(),
        digits.len() + payload.len() + back.len() + 5 + i64::MAX + 2 <= usize::MAX,
    ensures
        frame_at(seq![36u8] + digits + seq![13u8, 10u8] + payload + seq![13u8, 10u8] + back, 0, depth)
            == Reading::Complete(FrameValue::BulkString(payload), (digits.len() + payload.len() + 5) as int),
{
    let s = seq![36u8] + digits + seq![13u8, 10u8] + payload + seq![13u8, 10u8] + back;
    let end = (digits.len() + 1) as int;
    assert forall|i: int| 0 < i < end implies !(#[trigger] s[i] == 13 && s[i + 1] == 10) by {
        assert(s[i] == digits[i - 1]);
    }
    assert(s[end] == 13 && s[end + 1] == 10);
    assert(s.subrange(1, end) =~= digits);
    crate::text::ascii_is_utf8(digits);
    the_first_line_decides(s, 0, depth, end);
    let start = end + 2;
    assert(s[start + payload.len()] == 13 && s[start + payload.len() + 1] == 10);
    assert(s.subrange(start, start + payload.len()) =~= payload);
}

/// The words in which faults are reported.
pub proof fn faults_are_reported_in_these_words(length: i64, prefix: u8)
    ensures
        Fault::NestingLimit.message() == "RESP array nesting limit exceeded"@,
        Fault::LengthNotText.message() == "RESP length is not valid ASCII"@,
        Fault::LengthNotInteger.message() == "RESP length is not a valid integer"@,
        Fault::InvalidLength(LengthKind::BulkString, length).message() == "invalid bulk string length: "@ + ascii_chars(
            signed_decimal(length as int),
        ),
        Fault::InvalidLength(LengthKind::Array, length).message() == "invalid array length: "@ + ascii_chars(
            signed_decimal(length as int),
        ),
        Fault::LengthOverflow.message() == "bulk string length overflow"@,
        Fault::MissingTerminator.message() == "bulk string payload is not terminated by CRLF"@,
        Fault::UnsupportedType(prefix).message() == "unsupported RESP type byte: 0x"@ + hex_byte(prefix),
{
    reveal_strlit("invalid ");
    reveal_strlit("bulk string");
    reveal_strlit("array");
    reveal_strlit(" length: ");
    reveal_strlit("invalid bulk string length: ");
    reveal_strlit("invalid array length: ");
    assert("invalid "@ + "bulk string"@ + " length: "@ =~= "invalid bulk string length: "@);
    assert("invalid "@ + "array"@ + " length: "@ =~= "invalid array length: "@);
}

/// A frame stores a value if and only if it is an array of three bulk strings: the letters `SET`
/// in any case, the key and the value.
pub proof fn store_commands_are_these(frame: FrameValue, key: Seq<u8>, value: Seq<u8>)
    ensures
        command_of(frame) == (CommandValue::Store { key, value }) <==> {
            &&& frame is Array
            &&& frame->Array_0.len() == 3
            &&& frame->Array_0[0] is BulkString
            &&& frame->Array_0[0]->BulkString_0.len() == 3
            &&& (frame->Array_0[0]->BulkString_0[0] == 83 || frame->Array_0[0]->BulkString_0[0] == 115)
            &&& (frame->Array_0[0]->BulkString_0[1] == 69 || frame->Array_0[0]->BulkString_0[1] == 101)
            &&& (frame->Array_0[0]->BulkString_0[2] == 84 || frame->Array_0[0]->BulkString_0[2] == 116)
            &&& frame->Array_0[1] == FrameValue::BulkString(key)
            &&& frame->Array_0[2] == FrameValue::BulkString(value)
        },
{
    reveal_strlit("SET");
    reveal_strlit("GET");
    if frame is Array && frame->Array_0.len() > 0 && frame->Array_0[0] is BulkString {
        let name = frame->Array_0[0]->BulkString_0;
        three_letters(name, crate::command::set_name());
        three_letters(name, crate::command::get_name());
    }
}

/// A frame reads a value if and only if it is an array of two bulk strings: the letters `GET` in
/// any case, and the key.
pub proof fn fetch_commands_are_these(frame: FrameValue, key: Seq<u8>)
    ensures
        command_of(frame) == (CommandValue::Fetch { key }) <==> {
            &&& frame is Array
            &&& frame->Array_0.len() == 2
            &&& frame->Array_0[0] is BulkString
            &&& frame->Array_0[0]->BulkString_0.len() == 3
            &&& (frame->Array_0[0]->BulkString_0[0] == 71 || frame->Array_0[0]->BulkString_0[0] == 103)
            &&& (frame->Array_0[0]->BulkString_0[1] == 69 || frame->Array_0[0]->BulkString_0[1] == 101)
            &&& (frame->Array_0[0]->BulkString_0[2] == 84 || frame->Array_0[0]->BulkString_0[2] == 116)
            &&& frame->Array_0[1] == FrameValue::BulkString(key)
        },
{
    reveal_strlit("SET");
    reveal_strlit("GET");
    if frame is Array && frame->Array_0.len() > 0 && frame->Array_0[0] is BulkString {
        let name = frame->Array_0[0]->BulkString_0;
        three_letters(name, crate::command::set_name());
        three_letters(name, crate::command::get_name());
    }
}

/// A word is a given one of three capital letters if its letters are those, in either case.
proof fn three_letters(name: Seq<u8>, capitals: Seq<u8>)
    requires
        capitals.len() == 3,
        forall|i: int| 0 <= i < 3 ==> 65 <= #[trigger] capitals[i] <= 90,
    ensures
        same_word(name, capitals) <==> {
            &&& name.len() == 3
            &&& (name[0] == capitals[0] || name[0] == capitals[0] + 32)
            &&& (name[1] == capitals[1] || name[1] == capitals[1] + 32)
            &&& (name[2] == capitals[2] || name[2] == capitals[2] + 32)
        },
{
    words_are_the_same_up_to_case(name, capitals);
    assert(65 <= capitals[0] <= 90 && 65 <= capitals[1] <= 90 && 65 <= capitals[2] <= 90);
    if same_word(name, capitals) {
        assert(name[0] == name[0] && name[1] == name[1] && name[2] == name[2]);
    }
}

/// What is sent for each reply, byte for byte. A value is sent as a dollar sign, its length in
/// decimal, the end of a line, the value itself, and the end of a line.
pub proof fn replies_are_sent_as_these_bytes(reply: Reply, response: Response)
    requires
        call_ensures(Reply::encode, (reply,), response),
    ensures
        reply is Stored ==> response.sent() == seq![43u8, 79u8, 75u8, 13u8, 10u8],
        reply is Missing ==> response.sent() == seq![36u8, 45u8, 49u8, 13u8, 10u8],
        reply is UnknownCommand ==> response.sent() == seq![
            45u8, 69u8, 82u8, 82u8, 32u8, 117u8, 110u8, 107u8, 110u8, 111u8, 119u8, 110u8, 32u8, 99u8, 111u8, 109u8,
            109u8, 97u8, 110u8, 100u8, 13u8, 10u8,
        ],
        reply matches Reply::Value(payload) ==> response.sent() == seq![36u8] + signed_decimal(
            bytes_of(payload).len() as int,
        ) + seq![13u8, 10u8] + bytes_of(payload) + seq![13u8, 10u8],
{
    reveal_strlit("+OK\r\n");
    reveal_strlit("-ERR unknown command\r\n");
    assert(signed_decimal(-1) =~= seq![45u8, 49u8]);
    match reply {
        Reply::Stored => {
            assert(response.sent() =~= seq![43u8, 79u8, 75u8, 13u8, 10u8]);
        },
        Reply::Missing => {
            assert(response.sent() =~= seq![36u8, 45u8, 49u8, 13u8, 10u8]);
        },
        Reply::UnknownCommand => {
            assert(response.sent() =~= seq![
                45u8, 69u8, 82u8, 82u8, 32u8, 117u8, 110u8, 107u8, 110u8, 111u8, 119u8, 110u8, 32u8, 99u8, 111u8,
                109u8, 109u8, 97u8, 110u8, 100u8, 13u8, 10u8,
            ]);
        },
        Reply::Value(payload) => {
            assert(response.sent() =~= seq![36u8] + signed_decimal(bytes_of(payload).len() as int) + seq![13u8, 10u8]
                + bytes_of(payload) + seq![13u8, 10u8]);
        },
    }
}

/// The parts of a response are sent in turn.
pub proof fn responses_are_sent_in_turn(response: Response)
    ensures
        response.payload matches Some(payload) ==> response.sent() == response.head@ + bytes_of(payload) + response.tail@,
        response.payload is None ==> response.sent() == response.head@ + response.tail@,
{
}

/// A number of milliseconds that fits in 64 bits is kept, and numbers that differ by some
/// milliseconds stay as far apart; a number that does not fit becomes the largest one.
pub proof fn milliseconds_are_kept(millis: u128, kept: u64, later_millis: u128, later: u64)
    requires
        call_ensures(clamp_millis, (millis,), kept),
        call_ensures(clamp_millis, (later_millis,), later),
        millis <= later_millis,
    ensures
        later_millis <= u64::MAX ==> kept == millis && later - kept == later_millis - millis,
        later_millis > u64::MAX ==> later == u64::MAX,
        kept <= later,
{
}

/// The time is the number of whole milliseconds that have passed since the epoch.
pub proof fn the_time_is_what_has_passed(span: Duration, time: Option<u64>)
    requires
        is_time_after(Ok::<Duration, SystemTimeError>(span), time),
    ensures
        time is Some,
        exists|millis: u128| {
            &&& #[trigger] call_ensures(Duration::as_millis, (&span,), millis)
            &&& millis <= u64::MAX ==> time->0 as int == millis as int
            &&& millis > u64::MAX ==> time->0 as int == u64::MAX as int
        },
{
    let millis = choose|millis: u128| {
        &&& #[trigger] call_ensures(Duration::as_millis, (&span,), millis)
        &&& time == Some(crate::clock::clamped(millis))
    };
    assert(call_ensures(Duration::as_millis, (&span,), millis));
}

/// An entry that was made with a time to live has expired exactly from that much later on, or at
/// the largest time. Without a time to live, or without a clock, it never expires.
pub proof fn entries_expire_when_their_time_has_passed(
    key: Bytes,
    value: Bytes,
    ttl: u64,
    made: u64,
    now: u64,
    entry: CacheEntry,
    expired: bool,
)
    requires
        call_ensures(CacheEntry::new_at, (key, value, Some(ttl), Some(made)), entry),
        call_ensures(CacheEntry::is_expired_at, (&entry, Some(now)), expired),
    ensures
        expired <==> now >= made + ttl || now == u64::MAX,
{
}

/// An entry that was made without a time to live or without a clock never expires, and without a
/// clock no entry does.
pub proof fn entries_without_a_time_never_expire(
    key: Bytes,
    value: Bytes,
    ttl: Option<u64>,
    made: Option<u64>,
    now: Option<u64>,
    entry: CacheEntry,
    expired: bool,
)
    requires
        call_ensures(CacheEntry::new_at, (key, value, ttl, made), entry),
        call_ensures(CacheEntry::is_expired_at, (&entry, now), expired),
        ttl is None || made is None || now is None,
    ensures
        !expired,
{
}

/// An entry hands back the value that it was made with.
pub proof fn entries_keep_their_value(
    key: Bytes,
    value: Bytes,
    ttl: Option<u64>,
    made: Option<u64>,
    entry: CacheEntry,
    kept: &Bytes,
)
    requires
        call_ensures(CacheEntry::new_at, (key, value, ttl, made), entry),
        call_ensures(CacheEntry::value, (&entry,), kept),
    ensures
        bytes_of(*kept) == bytes_of(value),
{
}

/// A value is found if and only if there is an entry under the key that has not expired.
pub proof fn live_values_are_these(store: Map<Seq<u8>, EntryValue>, key: Seq<u8>, now: Option<u64>, value: Seq<u8>)
    ensures
        live_value(store, key, now) == Some(value) <==> {
            &&& store.dom().contains(key)
            &&& store[key].value == value
            &&& (store[key].expires_at is None || now is None || now->0 < store[key].expires_at->0)
        },
{
}

/// When two values are stored under a key, one after the other, a read gives the second, at any
/// time.
pub proof fn the_second_value_replaces_the_first(
    first: &mut ShardMap<Bytes, CacheEntry>,
    first_pair: (Bytes, Bytes),
    second: &mut ShardMap<Bytes, CacheEntry>,
    second_pair: (Bytes, Bytes),
    read: &ShardMap<Bytes, CacheEntry>,
    key: &Bytes,
    now: Option<u64>,
    value: Option<Bytes>,
)
    requires
        call_ensures(store_value, (first, first_pair), ()),
        *second == *final(first),
        call_ensures(store_value, (second, second_pair), ()),
        *read == *final(second),
        call_ensures(read_value_at, (read, key, now), value),
        bytes_of(*key) == bytes_of(second_pair.0),
        bytes_of(first_pair.0) == bytes_of(second_pair.0),
    ensures
        value is Some,
        bytes_of(value->0) == bytes_of(second_pair.1),
        entries(*read).len() == entries(*final(first)).len(),
{
    assert(entries(*read).dom() =~= entries(*final(first)).dom());
}

/// To store a value under a key changes nothing for any other key: a read gives the same before and
/// after, at any time.
pub proof fn other_keys_are_read_as_before(
    written: &mut ShardMap<Bytes, CacheEntry>,
    pair: (Bytes, Bytes),
    before: &ShardMap<Bytes, CacheEntry>,
    after: &ShardMap<Bytes, CacheEntry>,
    key: &Bytes,
    now: Option<u64>,
    value_before: Option<Bytes>,
    value_after: Option<Bytes>,
)
    requires
        *before == *written,
        call_ensures(store_value, (written, pair), ()),
        *after == *final(written),
        bytes_of(*key) != bytes_of(pair.0),
        call_ensures(read_value_at, (before, key, now), value_before),
        call_ensures(read_value_at, (after, key, now), value_after),
    ensures
        value_before is Some <==> value_after is Some,
        value_before is Some ==> bytes_of(value_before->0) == bytes_of(value_after->0),
        records(*before).dom().contains(bytes_of(*key)) ==> records(*after)[bytes_of(*key)] == records(*before)[bytes_of(*key)],
{
}

/// When accesses are counted one after the other, from zero on, the count is the number of
/// accesses, up to the largest count.
pub proof fn the_count_is_the_number_of_accesses(counts: Seq<u32>, nexts: Seq<Option<u32>>)
    requires
        counts.len() == nexts.len() + 1,
        counts[0] == 0,
        forall|i: int| 0 <= i < nexts.len() ==> {
            &&& call_ensures(next_access_count, (counts[i],), #[trigger] nexts[i])
            &&& nexts[i] is Some ==> counts[i + 1] == nexts[i]->0
            &&& nexts[i] is None ==> counts[i + 1] == counts[i]
        },
    ensures
        nexts.len() <= u32::MAX ==> counts.last() == nexts.len(),
        nexts.len() > u32::MAX ==> counts.last() == u32::MAX,
    decreases nexts.len(),
{
    if nexts.len() > 0 {
        let fewer = counts.drop_last();
        let last = nexts.len() - 1;
        assert forall|i: int| 0 <= i < nexts.drop_last().len() implies {
            &&& call_ensures(next_access_count, (fewer[i],), #[trigger] nexts.drop_last()[i])
            &&& nexts.drop_last()[i] is Some ==> fewer[i + 1] == nexts.drop_last()[i]->0
            &&& nexts.drop_last()[i] is None ==> fewer[i + 1] == fewer[i]
        } by {
            assert(nexts.drop_last()[i] == nexts[i]);
        }
        the_count_is_the_number_of_accesses(fewer, nexts.drop_last());
        assert(call_ensures(next_access_count, (counts[last],), nexts[last]));
    }
}

/// When keys are promoted one after the other, from an empty order on, the order of access is those
/// keys in that order.
pub proof fn the_order_is_the_promotions(orders: Seq<&mut VecDeque<Bytes>>, promoted: Seq<Bytes>)
    requires
        orders.len() == promoted.len(),
        promoted.len() > 0,
        orders[0]@.len() == 0,
        forall|i: int| 0 <= i < promoted.len() ==> call_ensures(record_promotion, (orders[i], #[trigger] promoted[i]), ()),
        forall|i: int| 0 < i < promoted.len() ==> *(#[trigger] orders[i]) == *final(orders[i - 1]),
    ensures
        final(orders.last())@.len() == promoted.len(),
        forall|i: int| 0 <= i < promoted.len() ==> bytes_of(#[trigger] final(orders.last())@[i]) == bytes_of(promoted[i]),
    decreases promoted.len(),
{
    let last = promoted.len() - 1;
    let before = keys_of(orders[last]@);
    let after = keys_of(final(orders[last])@);
    assert(call_ensures(record_promotion, (orders[last], promoted[last]), ()));
    assert(after == before.push(bytes_of(promoted[last])));
    assert(after.len() == final(orders[last])@.len());
    if last > 0 {
        let fewer = promoted.drop_last();
        assert forall|i: int| 0 <= i < fewer.len() implies call_ensures(
            record_promotion,
            (orders.drop_last()[i], #[trigger] fewer[i]),
            (),
        ) by {
            assert(fewer[i] == promoted[i]);
        }
        assert forall|i: int| 0 < i < fewer.len() implies *(#[trigger] orders.drop_last()[i]) == *final(orders.drop_last()[i - 1]) by {
            assert(*orders[i] == *final(orders[i - 1]));
        }
        the_order_is_the_promotions(orders.drop_last(), fewer);
        assert(*orders[last] == *final(orders[last - 1]));
    }
    assert forall|i: int| 0 <= i < promoted.len() implies bytes_of(#[trigger] final(orders.last())@[i]) == bytes_of(promoted[i]) by {
        assert(after[i] == bytes_of(final(orders.last())@[i]));
        if i < last {
            assert(before[i] == bytes_of(orders[last]@[i]));
            assert(promoted.drop_last()[i] == promoted[i]);
        }
    }
}

/// When each of the keys of a map was promoted once, the keys that were promoted first leave, and
/// as many are left as may be: the ones that were promoted last.
pub proof fn the_last_promoted_are_left(
    map: &ShardMap<Bytes, CacheEntry>,
    promotions: VecDeque<Bytes>,
    order: &mut VecDeque<Bytes>,
    target: usize,
    victims: Vec<Bytes>,
)
    requires
        records(*map).dom().finite(),
        target <= promotions@.len(),
        forall|i: int, j: int| 0 <= i < j < promotions@.len() ==> bytes_of(#[trigger] promotions@[i]) != bytes_of(#[trigger] promotions@[j]),
        forall|i: int| 0 <= i < promotions@.len() ==> records(*map).dom().contains(bytes_of(#[trigger] promotions@[i])),
        forall|key: Seq<u8>| #[trigger] records(*map).dom().contains(key) ==> exists|i: int|
            0 <= i < promotions@.len() && bytes_of(#[trigger] promotions@[i]) == key,
        *order == promotions,
        call_ensures(retire_oldest, (order, (map, target)), victims),
    ensures
        victims@.len() == promotions@.len() - target,
        forall|i: int, j: int| 0 <= i < promotions@.len() && 0 <= j < victims@.len() && bytes_of(#[trigger] promotions@[i])
            == bytes_of(#[trigger] victims@[j]) ==> i < promotions@.len() - target,
        forall|i: int| 0 <= i < promotions@.len() - target ==> keys_of(victims@).contains(
            bytes_of(#[trigger] promotions@[i]),
        ),
{
    let all = keys_of(promotions@);
    let before = records(*map);
    let named = keys_of(victims@);
    let kept = before.remove_keys(named.to_set());
    let waiting = keys_of(final(order)@);
    assert(trims(before, all, target as nat, kept, waiting));
    assert forall|i: int, j: int| 0 <= i < j < all.len() implies all[i] != all[j] by {
        assert(bytes_of(promotions@[i]) != bytes_of(promotions@[j]));
    }
    assert forall|key: Seq<u8>| before.contains_key(key) implies all.contains(key) by {
        let i = choose|i: int| 0 <= i < promotions@.len() && bytes_of(#[trigger] promotions@[i]) == key;
        assert(all[i] == key);
    }
    crate::eviction::trimming_meets_the_target(before, all, target as nat, kept, waiting);
    all.unique_seq_to_set();
    assert(all.to_set() =~= before.dom()) by {
        assert forall|key: Seq<u8>| all.to_set().contains(key) implies before.dom().contains(key) by {
            let i = all.index_of(key);
            assert(bytes_of(promotions@[i]) == key);
        }
    }
    named.unique_seq_to_set();
    assert(named.to_set().subset_of(before.dom())) by {
        assert forall|key: Seq<u8>| named.to_set().contains(key) implies before.dom().contains(key) by {
            let j = named.index_of(key);
            assert(before.contains_key(named[j]));
        }
    }
    assert(kept.dom() =~= before.dom().difference(named.to_set()));
    vstd::set_lib::lemma_set_subset_finite(before.dom(), named.to_set());
    removed_are_counted(before.dom(), named.to_set());
    let gone = (promotions@.len() - target) as int;
    crate::eviction::the_least_recently_used_leaves_first(before, all, target as nat, kept, waiting);
    assert forall|i: int| 0 <= i < all.len() implies named.to_set().contains(all[i]) == (i < gone) by {
        assert(bytes_of(promotions@[i]) == all[i]);
        assert(crate::eviction::is_last_promotion(all, i));
        if named.to_set().contains(all[i]) && i >= gone {
            let head = all.take(i + 1);
            assert forall|key: Seq<u8>| head.to_set().contains(key) implies named.to_set().contains(key) by {
                let k = head.index_of(key);
                assert(all[k] == key);
                assert(bytes_of(promotions@[k]) == key);
                assert(crate::eviction::is_last_promotion(all, k));
                assert(before.contains_key(all[k]));
            }
            assert(head.no_duplicates());
            head.unique_seq_to_set();
            vstd::set_lib::lemma_len_subset(head.to_set(), named.to_set());
        }
        if !named.to_set().contains(all[i]) && i < gone {
            let head = all.take(i);
            assert forall|key: Seq<u8>| named.to_set().contains(key) implies head.to_set().contains(key) by {
                assert(all.to_set().contains(key));
                let k = all.index_of(key);
                assert(bytes_of(promotions@[k]) == key);
                assert(crate::eviction::is_last_promotion(all, k));
                if k < i {
                    assert(head[k] == key);
                }
            }
            assert(head.no_duplicates());
            head.unique_seq_to_set();
            vstd::seq_lib::seq_to_set_is_finite(head);
            vstd::set_lib::lemma_len_subset(named.to_set(), head.to_set());
        }
    }
    assert forall|i: int, j: int| 0 <= i < promotions@.len() && 0 <= j < victims@.len() && bytes_of(#[trigger] promotions@[i])
        == bytes_of(#[trigger] victims@[j]) implies i < promotions@.len() - target by {
        assert(named[j] == all[i]);
    }
    assert forall|i: int| 0 <= i < promotions@.len() - target implies named.contains(bytes_of(#[trigger] promotions@[i])) by {
        assert(named.to_set().contains(all[i]));
    }
}

/// A set without some of its members has fewer by their number.
proof fn removed_are_counted(all: Set<Seq<u8>>, some: Set<Seq<u8>>)
    requires
        all.finite(),
        some.subset_of(all),
    ensures
        all.difference(some).len() + some.len() == all.len(),
    decreases some.len(),
{
    vstd::set_lib::lemma_set_subset_finite(all, some);
    if some.len() == 0 {
        assert(some =~= Set::empty());
        assert(all.difference(some) =~= all);
    } else {
        let one = some.choose();
        removed_are_counted(all.remove(one), some.remove(one));
        assert(all.remove(one).difference(some.remove(one)) =~= all.difference(some));
    }
}

/// Keys and counts are shown one for one, in order.
pub proof fn keys_are_shown_in_order(handles: Seq<Bytes>, sample: Seq<(Bytes, u32)>)
    ensures
        keys_of(handles).len() == handles.len(),
        forall|i: int| 0 <= i < handles.len() ==> #[trigger] keys_of(handles)[i] == bytes_of(handles[i]),
        candidates(sample).len() == sample.len(),
        forall|i: int| 0 <= i < sample.len() ==> (#[trigger] candidates(sample)[i]).0 == bytes_of(sample[i].0)
            && candidates(sample)[i].1 == sample[i].1,
{
}

/// Counts are settled where each counter can only be found to hold the count under its key, and the
/// rivals of a key are the other keys with at least its count.
pub proof fn rivals_are_used_at_least_as_often(
    map: Map<Seq<u8>, CacheEntry>,
    counts: Map<Seq<u8>, u32>,
    key: Seq<u8>,
    other: Seq<u8>,
)
    ensures
        rivals(map, counts, key).contains(other) <==> map.dom().contains(other) && other != key && counts[other] >= counts[key],
        (forall|k: Seq<u8>, count: u32| #![trigger map[k].may_count(count)]
            map.dom().contains(k) && map[k].may_count(count) ==> count == counts[k]) ==> counts_are(map, counts),
{
}

/// A sample names different entries of a map, each with a count that its counter may be found to
/// hold, and of the candidates the first with the smallest count is the least used.
pub proof fn samples_are_these(
    map: &ShardMap<Bytes, CacheEntry>,
    limit: usize,
    sample: Sample,
    index: Option<usize>,
)
    requires
        call_ensures(take_sample, (map, limit), sample),
        call_ensures(least_used, (&sample,), index),
    ensures
        records(*map).len() <= limit ==> sample@.len() == records(*map).len(),
        records(*map).len() > limit ==> sample@.len() == limit,
        forall|i: int| 0 <= i < sample@.len() ==> records(*map).dom().contains(bytes_of((#[trigger] sample@[i]).0)),
        forall|i: int| 0 <= i < sample@.len() ==> records(*map)[bytes_of((#[trigger] sample@[i]).0)].may_count(sample@[i].1),
        forall|i: int, j: int| 0 <= i < j < sample@.len() ==> bytes_of((#[trigger] sample@[i]).0) != bytes_of((#[trigger] sample@[j]).0),
        index is None <==> sample@.len() == 0,
        index matches Some(least) ==> {
            &&& least < sample@.len()
            &&& forall|i: int| 0 <= i < sample@.len() ==> sample@[least as int].1 <= (#[trigger] sample@[i]).1
            &&& forall|i: int| 0 <= i < least ==> sample@[least as int].1 < (#[trigger] sample@[i]).1
        },
{
    let shown = candidates(sample@);
    assert forall|i: int| 0 <= i < sample@.len() implies shown[i] == (bytes_of((#[trigger] sample@[i]).0), sample@[i].1) by {
    }
    assert forall|i: int| 0 <= i < sample@.len() implies records(*map).dom().contains(bytes_of((#[trigger] sample@[i]).0))
        && records(*map)[bytes_of(sample@[i].0)].may_count(sample@[i].1) by {
        assert(records(*map).contains_key(shown[i].0));
    }
    assert forall|i: int, j: int| 0 <= i < j < sample@.len() implies bytes_of((#[trigger] sample@[i]).0) != bytes_of(
        (#[trigger] sample@[j]).0,
    ) by {
        assert(shown[i].0 != shown[j].0);
    }
    if let Some(least) = index {
        assert forall|i: int| 0 <= i < sample@.len() implies sample@[least as int].1 <= (#[trigger] sample@[i]).1 by {
            assert(shown[least as int].1 <= shown[i].1);
        }
        assert forall|i: int| 0 <= i < least implies sample@[least as int].1 < (#[trigger] sample@[i]).1 by {
            assert(shown[least as int].1 < shown[i].1);
        }
    }
}

/// The victims of a trimming are entries of the map, each named once, and no more than have to
/// leave; where fewer leave, no promotion is left. A key whose last promotion came before that of
/// a victim is a victim too, if it has an entry, and a key that still waits is none.
pub proof fn victims_are_the_least_recently_promoted(
    map: &ShardMap<Bytes, CacheEntry>,
    promotions: VecDeque<Bytes>,
    order: &mut VecDeque<Bytes>,
    target: usize,
    victims: Vec<Bytes>,
    older: int,
    newer: int,
    index: int,
)
    requires
        records(*map).dom().finite(),
        *order == promotions,
        call_ensures(retire_oldest, (order, (map, target)), victims),
    ensures
        forall|i: int| 0 <= i < victims@.len() ==> records(*map).dom().contains(bytes_of(#[trigger] victims@[i])),
        forall|i: int, j: int| 0 <= i < j < victims@.len() ==> bytes_of(#[trigger] victims@[i]) != bytes_of(#[trigger] victims@[j]),
        records(*map).len() <= target ==> victims@.len() == 0,
        records(*map).len() > target ==> victims@.len() <= records(*map).len() - target,
        records(*map).len() > target && victims@.len() < records(*map).len() - target ==> final(order)@.len() == 0,
        0 <= index < final(order)@.len() ==> !keys_of(victims@).contains(bytes_of(final(order)@[index])),
        0 <= older <= newer < promotions@.len()
            && (forall|k: int| older < k < promotions@.len() ==> bytes_of(#[trigger] promotions@[k]) != bytes_of(promotions@[older]))
            && (forall|k: int| newer < k < promotions@.len() ==> bytes_of(#[trigger] promotions@[k]) != bytes_of(promotions@[newer]))
            && records(*map).dom().contains(bytes_of(promotions@[older]))
            && keys_of(victims@).contains(bytes_of(promotions@[newer]))
            ==> keys_of(victims@).contains(bytes_of(promotions@[older])),
{
    let all = keys_of(promotions@);
    let before = records(*map);
    let named = keys_of(victims@);
    let kept = before.remove_keys(named.to_set());
    let waiting = keys_of(final(order)@);
    assert(trims(before, all, target as nat, kept, waiting));
    assert forall|i: int| 0 <= i < victims@.len() implies before.dom().contains(bytes_of(#[trigger] victims@[i])) by {
        assert(before.contains_key(named[i]));
    }
    assert forall|i: int, j: int| 0 <= i < j < victims@.len() implies bytes_of(#[trigger] victims@[i]) != bytes_of(
        #[trigger] victims@[j],
    ) by {
        assert(named[i] != named[j]);
    }
    named.unique_seq_to_set();
    assert(named.to_set().subset_of(before.dom())) by {
        assert forall|key: Seq<u8>| named.to_set().contains(key) implies before.dom().contains(key) by {
            let j = named.index_of(key);
            assert(before.contains_key(named[j]));
        }
    }
    assert(kept.dom() =~= before.dom().difference(named.to_set()));
    removed_are_counted(before.dom(), named.to_set());
    crate::eviction::trimming_only_removes_what_it_must(before, all, target as nat, kept, waiting);
    crate::eviction::the_least_recently_used_leaves_first(before, all, target as nat, kept, waiting);
    let count = choose|count: int| {
        &&& #[trigger] crate::eviction::is_trim(before, all, target as nat, count)
        &&& kept == crate::eviction::without_oldest(before, all, count)
        &&& waiting == all.skip(count)
    };
    if before.len() > target && victims@.len() < before.len() - target {
        assert(kept.len() > target);
        assert(count == all.len());
        assert(waiting.len() == 0);
    }
    if 0 <= index < final(order)@.len() {
        assert(waiting[index] == bytes_of(final(order)@[index]));
        assert(waiting.contains(waiting[index]));
        if named.contains(waiting[index]) {
            assert(named.to_set().contains(waiting[index]));
            assert(before.contains_key(waiting[index]));
        }
    }
    if 0 <= older <= newer < promotions@.len()
        && (forall|k: int| older < k < promotions@.len() ==> bytes_of(#[trigger] promotions@[k]) != bytes_of(promotions@[older]))
        && (forall|k: int| newer < k < promotions@.len() ==> bytes_of(#[trigger] promotions@[k]) != bytes_of(promotions@[newer]))
        && before.dom().contains(bytes_of(promotions@[older])) && named.contains(bytes_of(promotions@[newer])) {
        assert forall|k: int| older < k < all.len() implies all[k] != all[older] by {
            assert(bytes_of(promotions@[k]) != bytes_of(promotions@[older]));
        }
        assert forall|k: int| newer < k < all.len() implies all[k] != all[newer] by {
            assert(bytes_of(promotions@[k]) != bytes_of(promotions@[newer]));
        }
        assert(crate::eviction::is_last_promotion(all, older) && crate::eviction::is_last_promotion(all, newer));
        assert(named.to_set().contains(all[newer]));
        assert(before.contains_key(all[newer]));
        assert(!kept.contains_key(all[older]));
        assert(named.to_set().contains(all[older]));
    }
}

/// The value of a frame is that of its parts, one for one.
pub proof fn frames_show_their_parts(text: String, number: i64, payload: Bytes, elements: Vec<Frame>)
    ensures
        Frame::SimpleString(text)@ == FrameValue::SimpleString(text@),
        Frame::Error(text)@ == FrameValue::Error(text@),
        Frame::Integer(number)@ == FrameValue::Integer(number),
        Frame::BulkString(payload)@ == FrameValue::BulkString(bytes_of(payload)),
        Frame::Null@ == FrameValue::Null,
        Frame::Array(elements)@ is Array,
        Frame::Array(elements)@->Array_0.len() == elements@.len(),
        forall|i: int| 0 <= i < elements@.len() ==> #[trigger] Frame::Array(elements)@->Array_0[i] == elements@[i]@,
{
    crate::frame::array_value(elements);
}

/// The value of a command or a reply is that of its parts.
pub proof fn commands_and_replies_show_their_parts(key: Bytes, value: Bytes)
    ensures
        (Command::Store { key, value })@ == (CommandValue::Store { key: bytes_of(key), value: bytes_of(value) }),
        (Command::Fetch { key })@ == (CommandValue::Fetch { key: bytes_of(key) }),
        Command::Unknown@ == CommandValue::Unknown,
        Reply::Stored@ == ReplyValue::Stored,
        Reply::Value(value)@ == ReplyValue::Value(bytes_of(value)),
        Reply::Missing@ == ReplyValue::Missing,
        Reply::UnknownCommand@ == ReplyValue::UnknownCommand,
        value_of(Some(value)) == Some(bytes_of(value)),
        value_of(None::<Bytes>) is None,
{
}


} // verus!
