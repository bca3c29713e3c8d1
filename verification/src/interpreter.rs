//! The execution engine: a tape, a data pointer, the loaded instruction
//! bytes, and the dispatch loop, proved to realize the small-step semantics
//! of `machine` exactly.
//!
//! The program is held as one indexable byte sequence with an instruction
//! index into it: the bytes before the index are the replay record, the bytes
//! from it on are the pending stream, and a stack of loop-start positions
//! records the currently open loops. Jumping backward on loop-end is then a
//! move of the instruction index instead of a transfer of bytes between two
//! buffers, with the same observable behavior.

use vstd::prelude::*;

use crate::dtypes::{message_of, Command, ErrorKind};
use crate::machine::{
    eff_loop_start, find_close, init_machine, lemma_steps_succ, step, steps, Machine,
};
use crate::parsing::{byte_to_command, spec_byte_to_command};

verus! {

/// The execution engine. Construct it with `new`, load instruction bytes
/// with `fill_in_buff`, execute with `run`, then inspect the tape, the data
/// pointer, the output buffer, the error state and the flags through the
/// read accessors.
#[derive(Debug)]
pub struct BFInterpreter {
    mem_size: usize,
    mem: Vec<u8>,
    prog: Vec<u8>,
    ip: usize,
    opens: Vec<usize>,
    out_buf: Vec<u8>,
    data_ptr: usize,
    run_flg: bool,
    term_flg: bool,
    error: Option<ErrorKind>,
}

impl View for BFInterpreter {
    type V = Machine;

    closed spec fn view(&self) -> Machine {
        Machine {
            prog: self.prog@,
            ip: self.ip as nat,
            opens: self.opens@.map_values(|p: usize| p as nat),
            mem: self.mem@,
            ptr: self.data_ptr as nat,
            out: self.out_buf@,
            err: self.error,
        }
    }
}

impl BFInterpreter {
    /// The engine is well formed: its abstract state is, and the recorded
    /// tape size is the tape's length.
    pub closed spec fn wf(&self) -> bool {
        &&& self.mem_size == self.mem@.len()
        &&& self.prog@.len() <= usize::MAX
        &&& self@.wf()
    }

    /// The dispatch loop is underway.
    pub closed spec fn spec_running(&self) -> bool {
        self.run_flg
    }

    /// A run has completed, normally or by error.
    pub closed spec fn spec_terminated(&self) -> bool {
        self.term_flg
    }

    /// Construct an engine with a zero-filled tape of `mem_size` cells and
    /// everything else empty. A tape of zero cells would leave the data
    /// pointer no valid position, so construction rejects it.
    pub fn new(mem_size: usize) -> (bfi: BFInterpreter)
        requires
            mem_size >= 1,
        ensures
            bfi.wf(),
            bfi@ == init_machine(mem_size as nat, Seq::<u8>::empty()),
            !bfi.spec_running(),
            !bfi.spec_terminated(),
    {
        let mut mem: Vec<u8> = Vec::new();
        while mem.len() < mem_size
            invariant
                mem@ == Seq::new(mem@.len(), |i: int| 0u8),
                mem@.len() <= mem_size,
            decreases mem_size - mem@.len(),
        {
            mem.push(0);
            proof {
                assert(mem@ =~= Seq::new(mem@.len(), |i: int| 0u8));
            }
        }
        let bfi = BFInterpreter {
            mem_size,
            mem,
            prog: Vec::new(),
            ip: 0,
            opens: Vec::new(),
            out_buf: Vec::new(),
            data_ptr: 0,
            run_flg: false,
            term_flg: false,
            error: None,
        };
        proof {
            assert(bfi@.opens =~= Seq::<nat>::empty());
            assert(bfi@ == init_machine(mem_size as nat, Seq::<u8>::empty()));
        }
        bfi
    }

    /// The value of the cell at the current data pointer location.
    fn ptr_val(&self) -> (v: u8)
        requires
            self.wf(),
        ensures
            v == self@.mem[self@.ptr as int],
    {
        self.mem[self.data_ptr]
    }

    /// Handler for `Command::MovePointerRight`: consume the byte and move the
    /// pointer right; moving past the last cell is `PointerOverrun` and
    /// leaves the pointer on the last cell.
    fn move_pointer_right(&mut self)
        requires
            old(self).wf(),
            !old(self)@.halted(),
            spec_byte_to_command(old(self)@.prog[old(self)@.ip as int])
                == Some(Command::MovePointerRight),
        ensures
            final(self).wf(),
            final(self)@ == step(old(self)@),
    {
        self.ip = self.ip + 1;
        if self.data_ptr + 1 < self.mem_size {
            self.data_ptr = self.data_ptr + 1;
        } else {
            self.error = Some(ErrorKind::PointerOverrun);
        }
    }

    /// Handler for `Command::MovePointerLeft`: consume the byte and move the
    /// pointer left; at cell 0 this is `PointerUnderrun` and the pointer is
    /// unchanged.
    fn move_pointer_left(&mut self)
        requires
            old(self).wf(),
            !old(self)@.halted(),
            spec_byte_to_command(old(self)@.prog[old(self)@.ip as int])
                == Some(Command::MovePointerLeft),
        ensures
            final(self).wf(),
            final(self)@ == step(old(self)@),
    {
        self.ip = self.ip + 1;
        if self.data_ptr == 0 {
            self.error = Some(ErrorKind::PointerUnderrun);
        } else {
            self.data_ptr = self.data_ptr - 1;
        }
    }

    /// Handler for `Command::IncrementByte`: increment the cell at the data
    /// pointer, with 255 rolling over to 0.
    fn increment_byte(&mut self)
        requires
            old(self).wf(),
            !old(self)@.halted(),
            spec_byte_to_command(old(self)@.prog[old(self)@.ip as int])
                == Some(Command::IncrementByte),
        ensures
            final(self).wf(),
            final(self)@ == step(old(self)@),
    {
        self.ip = self.ip + 1;
        let v = self.ptr_val();
        if v == 255 {
            self.mem.set(self.data_ptr, 0);
        } else {
            self.mem.set(self.data_ptr, v + 1);
        }
    }

    /// Handler for `Command::DecrementByte`: decrement the cell at the data
    /// pointer, with 0 rolling over to 255.
    fn decrement_byte(&mut self)
        requires
            old(self).wf(),
            !old(self)@.halted(),
            spec_byte_to_command(old(self)@.prog[old(self)@.ip as int])
                == Some(Command::DecrementByte),
        ensures
            final(self).wf(),
            final(self)@ == step(old(self)@),
    {
        self.ip = self.ip + 1;
        let v = self.ptr_val();
        if v == 0 {
            self.mem.set(self.data_ptr, 255);
        } else {
            self.mem.set(self.data_ptr, v - 1);
        }
    }

    /// Handler for `Command::OutputByte`: append the current cell to the
    /// output buffer.
    fn output_byte(&mut self)
        requires
            old(self).wf(),
            !old(self)@.halted(),
            spec_byte_to_command(old(self)@.prog[old(self)@.ip as int])
                == Some(Command::OutputByte),
        ensures
            final(self).wf(),
            final(self)@ == step(old(self)@),
    {
        self.ip = self.ip + 1;
        let v = self.ptr_val();
        self.out_buf.push(v);
    }

    /// Handler for `Command::InputByte`: the engine has no input source, so
    /// the operation fails closed by recording `InputExhausted`.
    fn input_byte(&mut self)
        requires
            old(self).wf(),
            !old(self)@.halted(),
            spec_byte_to_command(old(self)@.prog[old(self)@.ip as int])
                == Some(Command::InputByte),
        ensures
            final(self).wf(),
            final(self)@ == step(old(self)@),
    {
        self.ip = self.ip + 1;
        self.error = Some(ErrorKind::InputExhausted);
    }

    /// Handler for `Command::JumpRightIfZero`. With a non-zero current cell
    /// the loop opens and execution falls through into the body. With a zero
    /// cell the body is skipped: the pending bytes are consumed one at a
    /// time, a depth counter following nested brackets, until the loop-end
    /// balancing this loop-start has been consumed; if the stream empties
    /// first, the run halts with `UnmatchedLoopStart`.
    fn jump_right_if_zero(&mut self)
        requires
            old(self).wf(),
            !old(self)@.halted(),
            spec_byte_to_command(old(self)@.prog[old(self)@.ip as int])
                == Some(Command::JumpRightIfZero),
        ensures
            final(self).wf(),
            final(self)@ == step(old(self)@),
    {
        let pos = self.ip;
        self.ip = self.ip + 1;
        if self.ptr_val() != 0 {
            self.opens.push(pos);
            proof {
                let f = |p: usize| p as nat;
                assert(self.opens@.map_values(f) =~= old(self).opens@.map_values(f).push(
                    pos as nat,
                ));
                assert(self@ == eff_loop_start(Machine { ip: (pos + 1) as nat, ..old(self)@ }));
            }
        } else {
            let ghost ip0 = self.ip as nat;
            let mut j: usize = self.ip;
            let mut depth: usize = 1;
            while j < self.prog.len() && depth != 0
                invariant
                    1 <= ip0 <= j <= self.prog@.len(),
                    depth <= j - ip0 + 1,
                    depth != 0 ==> find_close(self.prog@, ip0, 1) == find_close(
                        self.prog@,
                        j as nat,
                        depth as nat,
                    ),
                    depth == 0 ==> find_close(self.prog@, ip0, 1) == Some(j as nat),
                decreases self.prog@.len() - j,
            {
                let b = self.prog[j];
                j = j + 1;
                if b == 93 {
                    depth = depth - 1;
                } else if b == 91 {
                    depth = depth + 1;
                }
            }
            if depth == 0 {
                self.ip = j;
            } else {
                self.ip = self.prog.len();
                self.error = Some(ErrorKind::UnmatchedLoopStart);
            }
            proof {
                assert(self@ == eff_loop_start(Machine { ip: (pos + 1) as nat, ..old(self)@ }));
            }
        }
    }

    /// Handler for `Command::JumpLeftIfNonZero`. With no open loop this is
    /// `UnmatchedLoopEnd`. With a zero current cell the innermost loop is
    /// exited and execution proceeds with what follows. With a non-zero cell
    /// execution jumps back to just past the matching loop-start, which stays
    /// open and is not re-executed, so the body re-runs identically.
    fn jump_left_if_non_zero(&mut self)
        requires
            old(self).wf(),
            !old(self)@.halted(),
            spec_byte_to_command(old(self)@.prog[old(self)@.ip as int])
                == Some(Command::JumpLeftIfNonZero),
        ensures
            final(self).wf(),
            final(self)@ == step(old(self)@),
    {
        self.ip = self.ip + 1;
        if self.opens.len() == 0 {
            self.error = Some(ErrorKind::UnmatchedLoopEnd);
        } else if self.ptr_val() == 0 {
            let _ = self.opens.pop();
            proof {
                let f = |p: usize| p as nat;
                assert(self.opens@.map_values(f) =~= old(self).opens@.map_values(f).drop_last());
            }
        } else {
            let last = self.opens[self.opens.len() - 1];
            proof {
                assert(old(self)@.opens.last() == last as nat);
                assert(old(self)@.opens.last() < old(self)@.ip);
            }
            self.ip = last + 1;
        }
    }

    /// Execute the pending instruction stream to exhaustion or to the first
    /// error: the reflexive-transitive closure of the abstract machine's
    /// `step`. Whenever the abstract machine halts within `usize::MAX`
    /// dispatches — a budget no physically realizable run exhausts — the
    /// engine lands exactly on that halted state; a longer run stops, still
    /// well formed, after `usize::MAX` dispatches. The `running` flag is set
    /// for the duration; on exit the engine is terminated and read-only
    /// inspection applies. Calling `run` again resumes from the current
    /// state: it is a no-op unless more instructions have been loaded and no
    /// error is recorded.
    pub fn run(&mut self)
        requires
            old(self).wf(),
        ensures
            final(self).wf(),
            final(self)@.prog == old(self)@.prog,
            exists|n: nat|
                final(self)@ == steps(old(self)@, n) && (final(self)@.halted() || n
                    == usize::MAX as nat),
            forall|m: nat|
                #![trigger steps(old(self)@, m)]
                steps(old(self)@, m).halted() && m <= usize::MAX as nat ==> final(self)@ == steps(
                    old(self)@,
                    m,
                ),
            final(self).spec_terminated(),
            !final(self).spec_running(),
    {
        // set running flag while the interpreter is running
        self.run_flg = true;
        let ghost s0 = self@;
        let ghost mut n: nat = 0;
        let mut fuel: usize = usize::MAX;
        // consume one byte at a time, ignoring bytes that are not recognized
        // commands, while bytes are pending and no error has been recorded
        while self.ip < self.prog.len() && self.error.is_none() && fuel != 0
            invariant
                self.wf(),
                self@ == steps(s0, n),
                self@.prog == s0.prog,
                n + fuel == usize::MAX,
            decreases fuel,
        {
            proof {
                lemma_steps_succ(s0, n);
            }
            let b = self.prog[self.ip];
            match byte_to_command(b) {
                Some(Command::MovePointerRight) => self.move_pointer_right(),
                Some(Command::MovePointerLeft) => self.move_pointer_left(),
                Some(Command::IncrementByte) => self.increment_byte(),
                Some(Command::DecrementByte) => self.decrement_byte(),
                Some(Command::OutputByte) => self.output_byte(),
                Some(Command::InputByte) => self.input_byte(),
                Some(Command::JumpRightIfZero) => self.jump_right_if_zero(),
                Some(Command::JumpLeftIfNonZero) => self.jump_left_if_non_zero(),
                None => {
                    self.ip = self.ip + 1;
                },
            }
            fuel = fuel - 1;
            proof {
                n = n + 1;
            }
        }
        // reset the running flag and set the terminated flag to signal that
        // execution has completed
        self.run_flg = false;
        self.term_flg = true;
        proof {
            assert(self@ == steps(s0, n));
            assert forall|m: nat| steps(s0, m).halted() && m <= usize::MAX as nat implies self@
                == steps(s0, m) by {
                if self@.halted() {
                    crate::machine::lemma_halted_unique(s0, n, m);
                } else {
                    crate::machine::lemma_steps_add(s0, m, (n - m) as nat);
                    crate::machine::lemma_halted_stays(steps(s0, m), (n - m) as nat);
                }
            }
        }
    }

    /// Append the bytes of `prog` to the back of the pending instruction
    /// stream. May be called repeatedly, also between runs; bytes already
    /// consumed are unaffected.
    pub fn fill_in_buff(&mut self, prog: String)
        requires
            old(self).wf(),
        ensures
            final(self).wf(),
            final(self)@ == (Machine {
                prog: old(self)@.prog + vstd::utf8::encode_utf8(prog@),
                ..old(self)@
            }),
            final(self).spec_running() == old(self).spec_running(),
            final(self).spec_terminated() == old(self).spec_terminated(),
    {
        let bytes: &[u8] = prog.as_str().as_bytes();
        let mut tail = vstd::slice::slice_to_vec(bytes);
        self.prog.append(&mut tail);
        proof {
            assert(self.prog@.len() == self.prog.len());
        }
    }

    /// The tape contents.
    pub fn memory(&self) -> (mem: &Vec<u8>)
        ensures
            mem@ == self@.mem,
    {
        &self.mem
    }

    /// The data pointer.
    pub fn pointer(&self) -> (ptr: usize)
        ensures
            ptr as nat == self@.ptr,
    {
        self.data_ptr
    }

    /// The output buffer.
    pub fn output(&self) -> (out: &Vec<u8>)
        ensures
            out@ == self@.out,
    {
        &self.out_buf
    }

    /// The recorded error, if any.
    pub fn error_kind(&self) -> (err: Option<ErrorKind>)
        ensures
            err == self@.err,
    {
        self.error
    }

    /// The message of the recorded error, if any.
    pub fn error_message(&self) -> (msg: Option<&'static str>)
        ensures
            msg is Some <==> self@.err is Some,
            msg is Some ==> msg->0@ == message_of(self@.err->0),
    {
        match self.error {
            None => None,
            Some(ErrorKind::PointerOverrun) => Some("data pointer overran available memory"),
            Some(ErrorKind::PointerUnderrun) => Some("data pointer underran available memory"),
            Some(ErrorKind::UnmatchedLoopStart) => Some("could not find closing ]"),
            Some(ErrorKind::UnmatchedLoopEnd) => Some("unmatched ]"),
            Some(ErrorKind::InputExhausted) => Some("input source exhausted"),
        }
    }

    /// Whether a run has completed, normally or by error.
    pub fn terminated(&self) -> (t: bool)
        ensures
            t == self.spec_terminated(),
    {
        self.term_flg
    }

    /// Whether the dispatch loop is underway. `run` never yields control, so
    /// a caller observes this as false.
    pub fn running(&self) -> (r: bool)
        ensures
            r == self.spec_running(),
    {
        self.run_flg
    }
}

} // verus!
