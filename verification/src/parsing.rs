//! Classification of raw instruction bytes.

use vstd::prelude::*;

use crate::dtypes::Command;

verus! {

/// The instruction a byte denotes, or `None` for a byte that is not one of
/// the eight recognized symbols. Total, pure and stateless; the engine skips
/// unrecognized bytes as comments.
pub open spec fn spec_byte_to_command(byte: u8) -> Option<Command> {
    if byte == 43 {  // +
        Some(Command::IncrementByte)
    } else if byte == 44 {  // ,
        Some(Command::InputByte)
    } else if byte == 45 {  // -
        Some(Command::DecrementByte)
    } else if byte == 46 {  // .
        Some(Command::OutputByte)
    } else if byte == 60 {  // <
        Some(Command::MovePointerLeft)
    } else if byte == 62 {  // >
        Some(Command::MovePointerRight)
    } else if byte == 91 {  // [
        Some(Command::JumpRightIfZero)
    } else if byte == 93 {  // ]
        Some(Command::JumpLeftIfNonZero)
    } else {
        None
    }
}

/// Convert a byte into the corresponding `Command` variant.
pub fn byte_to_command(byte: u8) -> (cmd: Option<Command>)
    ensures
        cmd == spec_byte_to_command(byte),
{
    match byte {
        // +
        43 => Some(Command::IncrementByte),
        // ,
        44 => Some(Command::InputByte),
        // -
        45 => Some(Command::DecrementByte),
        // .
        46 => Some(Command::OutputByte),
        // <
        60 => Some(Command::MovePointerLeft),
        // >
        62 => Some(Command::MovePointerRight),
        // [
        91 => Some(Command::JumpRightIfZero),
        // ]
        93 => Some(Command::JumpLeftIfNonZero),
        // None for all other bytes
        _ => None,
    }
}

} // verus!
