//! The abstract tape machine: a mathematical small-step semantics for the
//! execution engine.
//!
//! A `Machine` value is the ghost model of an engine: the instruction bytes
//! loaded so far, how many of them have been consumed, the positions of the
//! loop-start bytes whose loops are currently open, the tape, the data
//! pointer, the output buffer and the recorded error. `step` consumes one
//! pending byte and applies its instruction's effect; `steps` iterates it.
//! The engine's `run` is proved to realize exactly this relation.

use vstd::prelude::*;

use crate::dtypes::{Command, ErrorKind};
use crate::parsing::spec_byte_to_command;

verus! {

/// Abstract state of the execution engine.
pub ghost struct Machine {
    /// every instruction byte loaded so far, in load order
    pub prog: Seq<u8>,
    /// how many of those bytes have been consumed: `prog` up to `ip` is the
    /// replay record, `prog` from `ip` on is the pending instruction stream
    pub ip: nat,
    /// positions in `prog` of the loop-start bytes whose loops are currently
    /// open (executed and not yet exited), outermost first
    pub opens: Seq<nat>,
    /// the tape
    pub mem: Seq<u8>,
    /// the data pointer
    pub ptr: nat,
    /// the output buffer
    pub out: Seq<u8>,
    /// the recorded error; terminal once set
    pub err: Option<ErrorKind>,
}

impl Machine {
    /// No further instruction executes: the pending stream is exhausted or an
    /// error has been recorded.
    pub open spec fn halted(self) -> bool {
        self.err is Some || self.ip >= self.prog.len()
    }

    /// Well-formedness: the data pointer is on the tape, the consumed prefix
    /// is within the loaded program, and the open-loop record holds strictly
    /// increasing positions of already-consumed loop-start bytes.
    pub open spec fn wf(self) -> bool {
        &&& self.mem.len() >= 1
        &&& self.ptr < self.mem.len()
        &&& self.ip <= self.prog.len()
        &&& forall|i: int|
            0 <= i < self.opens.len() ==> #[trigger] self.opens[i] < self.ip
                && self.prog[self.opens[i] as int] == 91u8
        &&& forall|i: int, j: int|
            #![trigger self.opens[i], self.opens[j]]
            0 <= i < j < self.opens.len() ==> self.opens[i] < self.opens[j]
    }
}

/// The state of a freshly constructed engine: a zero-filled tape of the given
/// size with the given bytes loaded and nothing consumed.
pub open spec fn init_machine(size: nat, prog: Seq<u8>) -> Machine {
    Machine {
        prog,
        ip: 0,
        opens: Seq::<nat>::empty(),
        mem: Seq::new(size, |i: int| 0u8),
        ptr: 0,
        out: Seq::<u8>::empty(),
        err: None,
    }
}

/// Increment a cell with 255 rolling over to 0.
pub open spec fn wrap_inc(v: u8) -> u8 {
    if v == 255 {
        0
    } else {
        (v + 1) as u8
    }
}

/// Decrement a cell with 0 rolling over to 255.
pub open spec fn wrap_dec(v: u8) -> u8 {
    if v == 0 {
        255
    } else {
        (v - 1) as u8
    }
}

/// Scan `prog` from position `i` while `depth` loop-starts are waiting for
/// their balancing loop-end; return the position just past the loop-end that
/// balances the first of them, or `None` when the stream ends first.
///
/// `find_close(prog, i, 1)` is the position execution resumes at when the
/// loop-start just before `i` is skipped: one past its matching loop-end.
pub open spec fn find_close(prog: Seq<u8>, i: nat, depth: nat) -> Option<nat>
    decreases prog.len() - i,
{
    if i >= prog.len() {
        None
    } else if prog[i as int] == 93u8 {
        if depth <= 1 {
            Some((i + 1) as nat)
        } else {
            find_close(prog, i + 1, (depth - 1) as nat)
        }
    } else if prog[i as int] == 91u8 {
        find_close(prog, i + 1, depth + 1)
    } else {
        find_close(prog, i + 1, depth)
    }
}

/// Effect of pointer-right on a state whose `ip` is already past the byte.
/// Leaving the tape is an error; the pointer then stays at the last valid
/// position reached.
pub open spec fn eff_ptr_right(s: Machine) -> Machine {
    if s.ptr + 1 < s.mem.len() {
        Machine { ptr: (s.ptr + 1) as nat, ..s }
    } else {
        Machine { err: Some(ErrorKind::PointerOverrun), ..s }
    }
}

/// Effect of pointer-left: an error at cell 0, with the pointer unchanged.
pub open spec fn eff_ptr_left(s: Machine) -> Machine {
    if s.ptr == 0 {
        Machine { err: Some(ErrorKind::PointerUnderrun), ..s }
    } else {
        Machine { ptr: (s.ptr - 1) as nat, ..s }
    }
}

/// Effect of increment: the current cell grows by one, wrapping.
pub open spec fn eff_inc(s: Machine) -> Machine {
    Machine { mem: s.mem.update(s.ptr as int, wrap_inc(s.mem[s.ptr as int])), ..s }
}

/// Effect of decrement: the current cell shrinks by one, wrapping.
pub open spec fn eff_dec(s: Machine) -> Machine {
    Machine { mem: s.mem.update(s.ptr as int, wrap_dec(s.mem[s.ptr as int])), ..s }
}

/// Effect of output: the current cell is appended to the output buffer.
pub open spec fn eff_out(s: Machine) -> Machine {
    Machine { out: s.out.push(s.mem[s.ptr as int]), ..s }
}

/// Effect of input: the engine has no input source, so the operation fails
/// closed with `InputExhausted`.
pub open spec fn eff_in(s: Machine) -> Machine {
    Machine { err: Some(ErrorKind::InputExhausted), ..s }
}

/// Effect of loop-start, dispatched at position `ip - 1`. With a non-zero
/// current cell the loop opens and execution falls through into the body.
/// With a zero cell the whole body is skipped: execution resumes just past
/// the matching loop-end, or halts with `UnmatchedLoopStart` when the stream
/// ends before the brackets rebalance (everything scanned counts as
/// consumed).
pub open spec fn eff_loop_start(s: Machine) -> Machine
    recommends
        s.ip >= 1,
{
    if s.mem[s.ptr as int] != 0 {
        Machine { opens: s.opens.push((s.ip - 1) as nat), ..s }
    } else {
        match find_close(s.prog, s.ip, 1) {
            Some(j) => Machine { ip: j, ..s },
            None => Machine {
                ip: s.prog.len(),
                err: Some(ErrorKind::UnmatchedLoopStart),
                ..s
            },
        }
    }
}

/// Effect of loop-end. With no open loop it is `UnmatchedLoopEnd`. With a
/// zero current cell the innermost loop is exited. With a non-zero cell
/// execution jumps back to just past the matching loop-start, which is not
/// re-executed, so the loop stays open.
pub open spec fn eff_loop_end(s: Machine) -> Machine {
    if s.opens.len() == 0 {
        Machine { err: Some(ErrorKind::UnmatchedLoopEnd), ..s }
    } else if s.mem[s.ptr as int] == 0 {
        Machine { opens: s.opens.drop_last(), ..s }
    } else {
        Machine { ip: (s.opens.last() + 1) as nat, ..s }
    }
}

/// One dispatch: consume the byte at `ip`, classify it, and apply the
/// matching effect; an unrecognized byte is consumed with no other change.
pub open spec fn dispatch(s: Machine) -> Machine
    recommends
        !s.halted(),
{
    let t = Machine { ip: (s.ip + 1) as nat, ..s };
    match spec_byte_to_command(s.prog[s.ip as int]) {
        Some(Command::MovePointerRight) => eff_ptr_right(t),
        Some(Command::MovePointerLeft) => eff_ptr_left(t),
        Some(Command::IncrementByte) => eff_inc(t),
        Some(Command::DecrementByte) => eff_dec(t),
        Some(Command::OutputByte) => eff_out(t),
        Some(Command::InputByte) => eff_in(t),
        Some(Command::JumpRightIfZero) => eff_loop_start(t),
        Some(Command::JumpLeftIfNonZero) => eff_loop_end(t),
        None => t,
    }
}

/// Total step function: halted states are fixed points.
pub open spec fn step(s: Machine) -> Machine {
    if s.halted() {
        s
    } else {
        dispatch(s)
    }
}

/// `n` steps of the machine.
pub open spec fn steps(s: Machine, n: nat) -> Machine
    decreases n,
{
    if n == 0 {
        s
    } else {
        steps(step(s), (n - 1) as nat)
    }
}

/// A successful scan ends strictly after where it started, within the
/// program, and on a loop-end byte.
pub proof fn lemma_find_close_range(prog: Seq<u8>, i: nat, depth: nat)
    requires
        find_close(prog, i, depth) is Some,
    ensures
        i < find_close(prog, i, depth)->0 <= prog.len(),
        prog[find_close(prog, i, depth)->0 - 1] == 93u8,
    decreases prog.len() - i,
{
    if i >= prog.len() {
    } else if prog[i as int] == 93u8 {
        if depth <= 1 {
        } else {
            lemma_find_close_range(prog, i + 1, (depth - 1) as nat);
        }
    } else if prog[i as int] == 91u8 {
        lemma_find_close_range(prog, i + 1, depth + 1);
    } else {
        lemma_find_close_range(prog, i + 1, depth);
    }
}

/// One step preserves well-formedness.
pub proof fn lemma_step_preserves_wf(s: Machine)
    requires
        s.wf(),
    ensures
        step(s).wf(),
{
    if !s.halted() {
        let t = Machine { ip: (s.ip + 1) as nat, ..s };
        match spec_byte_to_command(s.prog[s.ip as int]) {
            Some(Command::JumpRightIfZero) => {
                if t.mem[t.ptr as int] != 0 {
                    let r = Machine { opens: t.opens.push((t.ip - 1) as nat), ..t };
                    assert forall|i: int| 0 <= i < r.opens.len() implies #[trigger] r.opens[i]
                        < r.ip && r.prog[r.opens[i] as int] == 91u8 by {
                        if i < t.opens.len() {
                            assert(r.opens[i] == t.opens[i]);
                        }
                    }
                } else {
                    if find_close(t.prog, t.ip, 1) is Some {
                        lemma_find_close_range(t.prog, t.ip, 1);
                    }
                }
            },
            Some(Command::JumpLeftIfNonZero) => {
                if t.opens.len() > 0 && t.mem[t.ptr as int] != 0 {
                    let r = Machine { ip: (t.opens.last() + 1) as nat, ..t };
                    assert forall|i: int| 0 <= i < r.opens.len() implies #[trigger] r.opens[i]
                        < r.ip && r.prog[r.opens[i] as int] == 91u8 by {
                        if i < r.opens.len() - 1 {
                            assert(r.opens[i] < r.opens[r.opens.len() - 1]);
                        }
                    }
                }
            },
            _ => {},
        }
    }
}

/// `steps` can also be unfolded from the right.
pub proof fn lemma_steps_succ(s: Machine, n: nat)
    ensures
        steps(s, n + 1) == step(steps(s, n)),
    decreases n,
{
    if n == 0 {
        assert(steps(s, 1) == steps(step(s), 0));
        assert(steps(step(s), 0) == step(s));
    } else {
        lemma_steps_succ(step(s), (n - 1) as nat);
        assert(steps(s, n + 1) == steps(step(s), n));
        assert(steps(s, n) == steps(step(s), (n - 1) as nat));
    }
}

/// Steps compose.
pub proof fn lemma_steps_add(s: Machine, m: nat, n: nat)
    ensures
        steps(s, m + n) == steps(steps(s, m), n),
    decreases m,
{
    if m > 0 {
        lemma_steps_add(step(s), (m - 1) as nat, n);
    }
}

/// A halted state is a fixed point of `steps`.
pub proof fn lemma_halted_stays(s: Machine, n: nat)
    requires
        s.halted(),
    ensures
        steps(s, n) == s,
    decreases n,
{
    if n > 0 {
        lemma_halted_stays(s, (n - 1) as nat);
    }
}

/// Law: the machine is deterministic. All halted states reachable from one
/// state coincide, so a run's outcome is pinned by its starting state alone.
pub proof fn lemma_halted_unique(s: Machine, m: nat, n: nat)
    requires
        steps(s, m).halted(),
        steps(s, n).halted(),
    ensures
        steps(s, m) == steps(s, n),
{
    if m <= n {
        lemma_steps_add(s, m, (n - m) as nat);
        lemma_halted_stays(steps(s, m), (n - m) as nat);
    } else {
        lemma_steps_add(s, n, (m - n) as nat);
        lemma_halted_stays(steps(s, n), (m - n) as nat);
    }
}

} // verus!
