//! Values of the Redis Serialization Protocol (RESP).

use crate::buffers::bytes_of;
use bytes::Bytes;
use vstd::prelude::*;

verus! {

/// A value encoded by the Redis Serialization Protocol (RESP).
#[derive(Debug, PartialEq)]
pub enum Frame {
    SimpleString(String),
    Error(String),
    Integer(i64),
    /// Binary payload backed by shared storage.
    ///
    /// `Bytes` lets a parser split and freeze data from the TCP read buffer
    /// without copying the payload, preserving zero-copy stream semantics.
    BulkString(Bytes),
    Array(Vec<Frame>),
    Null,
}

/// The mathematical value of a [`Frame`].
#[verifier::ext_equal]
pub enum FrameValue {
    SimpleString(Seq<char>),
    Error(Seq<char>),
    Integer(i64),
    BulkString(Seq<u8>),
    Array(Seq<FrameValue>),
    Null,
}

impl View for Frame {
    type V = FrameValue;

    open spec fn view(&self) -> FrameValue {
        frame_value(*self)
    }
}

/// The value of a frame, with the payload of every bulk string read out.
pub open spec fn frame_value(frame: Frame) -> FrameValue
    decreases frame,
{
    match frame {
        Frame::SimpleString(text) => FrameValue::SimpleString(text@),
        Frame::Error(text) => FrameValue::Error(text@),
        Frame::Integer(value) => FrameValue::Integer(value),
        Frame::BulkString(payload) => FrameValue::BulkString(bytes_of(payload)),
        Frame::Array(elements) => FrameValue::Array(
            Seq::new(
                elements@.len(),
                |i: int|
                    if 0 <= i < elements@.len() {
                        frame_value(elements@[i])
                    } else {
                        FrameValue::Null
                    },
            ),
        ),
        Frame::Null => FrameValue::Null,
    }
}

/// The values of the frames in a sequence, in order.
pub open spec fn frame_values(frames: Seq<Frame>) -> Seq<FrameValue> {
    frames.map_values(|frame: Frame| frame@)
}

/// The value of an array is the array of its elements' values.
pub proof fn array_value(elements: Vec<Frame>)
    ensures
        Frame::Array(elements)@ == FrameValue::Array(frame_values(elements@)),
{
    let value = Frame::Array(elements)@->Array_0;
    assert forall|i: int| 0 <= i < elements@.len() implies value[i] == frame_values(elements@)[i] by {
        assert(value[i] == frame_value(elements@[i]));
    }
    assert(value =~= frame_values(elements@));
}

impl Clone for Frame {
    fn clone(&self) -> (copy: Self)
        ensures
            copy@ == self@,
        decreases self,
    {
        match self {
            Frame::SimpleString(text) => Frame::SimpleString(text.clone()),
            Frame::Error(text) => Frame::Error(text.clone()),
            Frame::Integer(value) => Frame::Integer(*value),
            Frame::BulkString(payload) => Frame::BulkString(payload.clone()),
            Frame::Array(elements) => {
                let mut copies: Vec<Frame> = Vec::with_capacity(elements.len());
                let mut i: usize = 0;
                while i < elements.len()
                    invariant
                        i <= elements.len(),
                        *self == Frame::Array(*elements),
                        copies@.len() == i,
                        forall|j: int| 0 <= j < i ==> (#[trigger] copies@[j])@ == elements@[j]@,
                    decreases elements.len() - i,
                {
                    assert(decreases_to!(*self => self->Array_0));
                    assert(decreases_to!(*elements => elements@));
                    assert(decreases_to!(elements@ => elements@[i as int]));
                    let copy = elements[i].clone();
                    copies.push(copy);
                    i = i + 1;
                }
                proof {
                    array_value(copies);
                    array_value(*elements);
                    assert(frame_values(copies@) =~= frame_values(elements@));
                }
                Frame::Array(copies)
            },
            Frame::Null => Frame::Null,
        }
    }
}

} // verus!
