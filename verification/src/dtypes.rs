//! Basic data types of the tape machine: the instruction set and the error
//! taxonomy.

use vstd::prelude::*;

verus! {

/// The eight instructions of the tape-machine language. Any byte that does
/// not denote one of these is treated as a comment and skipped.
#[derive(Clone, Copy, Debug, PartialEq, Eq, Structural)]
pub enum Command {
    MovePointerRight,
    MovePointerLeft,
    IncrementByte,
    DecrementByte,
    OutputByte,
    InputByte,
    JumpRightIfZero,
    JumpLeftIfNonZero,
}

/// Why a run halted early. Every error is terminal: once one is recorded, no
/// further instruction executes, and the engine's state stays inspectable.
#[derive(Clone, Copy, Debug, PartialEq, Eq, Structural)]
pub enum ErrorKind {
    /// pointer-right would move the data pointer past the last tape cell
    PointerOverrun,
    /// pointer-left was attempted while the data pointer was at cell 0
    PointerUnderrun,
    /// a skipped loop body never reaches a balancing loop-end before the
    /// pending instruction stream is exhausted
    UnmatchedLoopStart,
    /// a loop-end was dispatched with no currently-open loop
    UnmatchedLoopEnd,
    /// the input instruction was dispatched but no input byte is available
    InputExhausted,
}

/// The diagnostic message recorded with each error kind.
pub open spec fn message_of(kind: ErrorKind) -> Seq<char> {
    match kind {
        ErrorKind::PointerOverrun => "data pointer overran available memory"@,
        ErrorKind::PointerUnderrun => "data pointer underran available memory"@,
        ErrorKind::UnmatchedLoopStart => "could not find closing ]"@,
        ErrorKind::UnmatchedLoopEnd => "unmatched ]"@,
        ErrorKind::InputExhausted => "input source exhausted"@,
    }
}

} // verus!
