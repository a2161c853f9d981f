//! The replies that clients get.

use crate::buffers::{bytes_of, bytes_slice};
use crate::frame::FrameValue;
use crate::grammar::{frame_at, Reading, BULK_STRING_PREFIX, CR, LF};
use crate::text::{ascii_bytes, decimal_bytes, signed_decimal};
use crate::wire::{bulk_string_wire, crlf, length_header, null_wire, wire, wire_reads_back};
use bytes::Bytes;
use vstd::prelude::*;

verus! {

/// What a client is answered.
pub enum Reply {
    /// The value was stored.
    Stored,
    /// The value that was asked for.
    Value(Bytes),
    /// There is no such value.
    Missing,
    /// The request was no known command.
    UnknownCommand,
}

/// The mathematical value of a [`Reply`].
#[verifier::ext_equal]
pub enum ReplyValue {
    Stored,
    Value(Seq<u8>),
    Missing,
    UnknownCommand,
}

impl View for Reply {
    type V = ReplyValue;

    open spec fn view(&self) -> ReplyValue {
        match *self {
            Reply::Stored => ReplyValue::Stored,
            Reply::Value(payload) => ReplyValue::Value(bytes_of(payload)),
            Reply::Missing => ReplyValue::Missing,
            Reply::UnknownCommand => ReplyValue::UnknownCommand,
        }
    }
}

/// A reply on the wire: the simple string `OK`, a bulk string, the null bulk string, or an error.
pub open spec fn reply_wire(reply: ReplyValue) -> Seq<u8> {
    match reply {
        ReplyValue::Stored => ascii_bytes("+OK\r\n"@),
        ReplyValue::Value(payload) => bulk_string_wire(payload),
        ReplyValue::Missing => null_wire(),
        ReplyValue::UnknownCommand => ascii_bytes("-ERR unknown command\r\n"@),
    }
}

/// The pieces of a reply, to be sent one after the other. The payload of a value is never copied.
pub struct Response {
    pub head: Vec<u8>,
    pub payload: Option<Bytes>,
    pub tail: Vec<u8>,
}

impl Response {
    /// What is sent in all.
    pub open spec fn sent(self) -> Seq<u8> {
        match self.payload {
            Some(payload) => self.head@ + bytes_of(payload) + self.tail@,
            None => self.head@ + self.tail@,
        }
    }
}

impl Reply {
    /// Puts a reply into its wire form.
    pub fn encode(self) -> (response: Response)
        ensures
            response.sent() == reply_wire(self@),
            response.payload == (match self {
                Reply::Value(payload) => Some(payload),
                _ => None,
            }),
    {
        match self {
            Reply::Stored => {
                proof {
                    reveal_strlit("+OK\r\n");
                    vstd::string::is_ascii_spec_bytes("+OK\r\n");
                }
                text_response("+OK\r\n")
            },
            Reply::Value(payload) => {
                let mut head: Vec<u8> = Vec::new();
                head.push(BULK_STRING_PREFIX);
                let mut digits = decimal_bytes(bytes_slice(&payload).len() as u64);
                head.append(&mut digits);
                head.push(CR);
                head.push(LF);
                let mut tail: Vec<u8> = Vec::new();
                tail.push(CR);
                tail.push(LF);
                assert(tail@ =~= crlf());
                assert(head@ =~= length_header(BULK_STRING_PREFIX, bytes_of(payload).len() as int));
                Response { head, payload: Some(payload), tail }
            },
            Reply::Missing => {
                proof {
                    reveal_strlit("$-1\r\n");
                    vstd::string::is_ascii_spec_bytes("$-1\r\n");
                    assert(ascii_bytes("$-1\r\n"@) =~= null_wire()) by {
                        assert(signed_decimal(-1) =~= seq![45u8, 49u8]);
                    }
                }
                text_response("$-1\r\n")
            },
            Reply::UnknownCommand => {
                proof {
                    reveal_strlit("-ERR unknown command\r\n");
                    vstd::string::is_ascii_spec_bytes("-ERR unknown command\r\n");
                }
                text_response("-ERR unknown command\r\n")
            },
        }
    }
}

/// The response that consists of a fixed ASCII text.
fn text_response(text: &str) -> (response: Response)
    requires
        text.is_ascii(),
    ensures
        response.sent() == ascii_bytes(text@),
        response.payload is None,
{
    proof {
        vstd::string::is_ascii_spec_bytes(text);
    }
    let mut head: Vec<u8> = Vec::new();
    head.extend_from_slice(text.as_bytes());
    let response = Response { head, payload: None, tail: Vec::new() };
    assert(response.sent() =~= ascii_bytes(text@));
    response
}

/// A client that parses the reply to a successful read gets the value back, and one that parses
/// the reply to a read of a missing key gets a null.
pub proof fn replies_read_back(payload: Seq<u8>, back: Seq<u8>)
    requires
        payload.len() <= i64::MAX,
        bulk_string_wire(payload).len() <= usize::MAX,
    ensures
        frame_at(reply_wire(ReplyValue::Value(payload)) + back, 0, 0) == Reading::Complete(
            FrameValue::BulkString(payload),
            reply_wire(ReplyValue::Value(payload)).len() as int,
        ),
        frame_at(reply_wire(ReplyValue::Missing) + back, 0, 0) == Reading::Complete(
            FrameValue::Null,
            reply_wire(ReplyValue::Missing).len() as int,
        ),
{
    let front = Seq::<u8>::empty();
    let value = FrameValue::BulkString(payload);
    wire_reads_back(front, value, back, 0);
    assert(front + wire(value) + back =~= reply_wire(ReplyValue::Value(payload)) + back);
    assert(signed_decimal(-1) =~= seq![45u8, 49u8]);
    wire_reads_back(front, FrameValue::Null, back, 0);
    assert(front + wire(FrameValue::Null) + back =~= reply_wire(ReplyValue::Missing) + back);
}

} // verus!
