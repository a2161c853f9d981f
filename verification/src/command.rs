//! The commands that clients send.

use crate::buffers::{bytes_of, bytes_slice};
use crate::frame::{array_value, frame_values, Frame, FrameValue};
use crate::text::{ascii_bytes, eq_ignore_ascii_case, same_word};
use bytes::Bytes;
use vstd::prelude::*;

verus! {

/// A request to the cache.
pub enum Command {
    /// Store `value` under `key`.
    Store { key: Bytes, value: Bytes },
    /// Read the value under `key`.
    Fetch { key: Bytes },
    /// Anything else.
    Unknown,
}

/// The mathematical value of a [`Command`].
#[verifier::ext_equal]
pub enum CommandValue {
    Store { key: Seq<u8>, value: Seq<u8> },
    Fetch { key: Seq<u8> },
    Unknown,
}

impl View for Command {
    type V = CommandValue;

    open spec fn view(&self) -> CommandValue {
        match *self {
            Command::Store { key, value } => CommandValue::Store { key: bytes_of(key), value: bytes_of(value) },
            Command::Fetch { key } => CommandValue::Fetch { key: bytes_of(key) },
            Command::Unknown => CommandValue::Unknown,
        }
    }
}

/// The name of the command that stores a value.
pub open spec fn set_name() -> Seq<u8> {
    ascii_bytes("SET"@)
}

/// The name of the command that reads a value.
pub open spec fn get_name() -> Seq<u8> {
    ascii_bytes("GET"@)
}

/// The command that a frame stands for: an array of bulk strings, of which the first names the
/// command in any case and the others are its arguments.
pub open spec fn command_of(frame: FrameValue) -> CommandValue {
    match frame {
        FrameValue::Array(elements) => if elements.len() == 0 {
            CommandValue::Unknown
        } else {
            match elements[0] {
                FrameValue::BulkString(name) => if same_word(name, set_name()) {
                    store_command(elements)
                } else if same_word(name, get_name()) {
                    fetch_command(elements)
                } else {
                    CommandValue::Unknown
                },
                _ => CommandValue::Unknown,
            }
        },
        _ => CommandValue::Unknown,
    }
}

/// The command of an array that begins with the name `SET`: a key and a value have to follow.
pub open spec fn store_command(elements: Seq<FrameValue>) -> CommandValue {
    if elements.len() == 3 {
        match (elements[1], elements[2]) {
            (FrameValue::BulkString(key), FrameValue::BulkString(value)) => CommandValue::Store { key, value },
            _ => CommandValue::Unknown,
        }
    } else {
        CommandValue::Unknown
    }
}

/// The command of an array that begins with the name `GET`: a key has to follow.
pub open spec fn fetch_command(elements: Seq<FrameValue>) -> CommandValue {
    if elements.len() == 2 {
        match elements[1] {
            FrameValue::BulkString(key) => CommandValue::Fetch { key },
            _ => CommandValue::Unknown,
        }
    } else {
        CommandValue::Unknown
    }
}

/// Finds out which command a frame stands for. The arguments keep sharing the frame's storage.
pub fn decode_command(frame: Frame) -> (command: Command)
    ensures
        command@ == command_of(frame@),
{
    let mut elements = match frame {
        Frame::Array(elements) => elements,
        _ => {
            return Command::Unknown;
        },
    };
    let ghost values = frame_values(elements@);
    proof {
        array_value(elements);
    }
    if elements.len() == 0 {
        return Command::Unknown;
    }
    assert(values[0] == elements@[0]@);
    let (is_set, is_get) = match &elements[0] {
        Frame::BulkString(name) => {
            proof {
                reveal_strlit("SET");
                reveal_strlit("GET");
                vstd::string::is_ascii_spec_bytes("SET");
                vstd::string::is_ascii_spec_bytes("GET");
            }
            let name = bytes_slice(name);
            let set = "SET".as_bytes();
            let get = "GET".as_bytes();
            assert(set@ =~= set_name());
            assert(get@ =~= get_name());
            (eq_ignore_ascii_case(name, set), eq_ignore_ascii_case(name, get))
        },
        _ => {
            return Command::Unknown;
        },
    };
    if is_set {
        if elements.len() != 3 {
            return Command::Unknown;
        }
        assert(values[1] == elements@[1]@ && values[2] == elements@[2]@);
        let value = elements.pop();
        let key = elements.pop();
        match (key, value) {
            (Some(Frame::BulkString(key)), Some(Frame::BulkString(value))) => Command::Store { key, value },
            _ => Command::Unknown,
        }
    } else if is_get {
        if elements.len() != 2 {
            return Command::Unknown;
        }
        assert(values[1] == elements@[1]@);
        match elements.pop() {
            Some(Frame::BulkString(key)) => Command::Fetch { key },
            _ => Command::Unknown,
        }
    } else {
        Command::Unknown
    }
}

/// The name of a command may be written in any case.
pub proof fn command_names_ignore_case(elements: Seq<FrameValue>, name: Seq<u8>, other: Seq<u8>)
    requires
        elements.len() > 0,
        elements[0] == FrameValue::BulkString(name),
        same_word(name, other),
    ensures
        command_of(FrameValue::Array(elements.update(0, FrameValue::BulkString(other)))) == command_of(
            FrameValue::Array(elements),
        ),
{
}

} // verus!
