//! General laws of the execution semantics, each proved for every input its
//! statement admits: net arithmetic effect of increment/decrement programs,
//! pointer motion and overrun, skipped loops, counted loops, the classic
//! cell-clearing loop, and the unmatched-bracket errors.

use vstd::arithmetic::div_mod::{
    lemma_add_mod_noop, lemma_mod_bound, lemma_mod_twice, lemma_small_mod,
};
use vstd::prelude::*;

use crate::dtypes::{Command, ErrorKind};
use crate::machine::{
    find_close, init_machine, lemma_find_close_range, lemma_step_preserves_wf, step, steps,
    wrap_dec, wrap_inc, Machine,
};
use crate::parsing::spec_byte_to_command;

verus! {

/// Number of increment bytes minus number of decrement bytes; other bytes
/// contribute nothing.
pub open spec fn net_change(prog: Seq<u8>) -> int
    decreases prog.len(),
{
    if prog.len() == 0 {
        0
    } else {
        let d: int = if prog[0] == 43u8 {
            1
        } else if prog[0] == 45u8 {
            -1
        } else {
            0
        };
        d + net_change(prog.drop_first())
    }
}

/// The value of a byte cell after adding `delta` with wraparound.
pub open spec fn cell_after(v: u8, delta: int) -> u8 {
    ((v + delta) % 256) as u8
}

/// Reducing the left summand modulo 256 first does not change a sum's
/// residue.
proof fn lemma_mod_add_assoc(a: int, e: int)
    ensures
        ((a % 256) + e) % 256 == (a + e) % 256,
{
    lemma_add_mod_noop(a, e, 256);
    lemma_add_mod_noop(a % 256, e, 256);
    lemma_mod_twice(a, 256);
}

/// A pending stream of only increment and decrement bytes runs to exhaustion
/// without error and adds its net change to the current cell, modulo 256.
proof fn lemma_inc_dec_seg(s: Machine)
    requires
        s.wf(),
        s.err is None,
        forall|k: int| s.ip <= k < s.prog.len() ==> s.prog[k] == 43u8 || s.prog[k] == 45u8,
    ensures
        steps(s, (s.prog.len() - s.ip) as nat) == (Machine {
            ip: s.prog.len(),
            mem: s.mem.update(
                s.ptr as int,
                cell_after(
                    s.mem[s.ptr as int],
                    net_change(s.prog.subrange(s.ip as int, s.prog.len() as int)),
                ),
            ),
            ..s
        }),
    decreases s.prog.len() - s.ip,
{
    let ptr = s.ptr as int;
    let v = s.mem[ptr];
    let whole = s.prog.subrange(s.ip as int, s.prog.len() as int);
    if s.ip == s.prog.len() {
        assert(net_change(whole) == 0);
        assert(cell_after(v, 0) == v) by {
            lemma_small_mod(v as nat, 256);
        }
        assert(s.mem.update(ptr, v) =~= s.mem);
    } else {
        let b = s.prog[s.ip as int];
        let t = Machine { ip: (s.ip + 1) as nat, ..s };
        let w = if b == 43u8 {
            wrap_inc(v)
        } else {
            wrap_dec(v)
        };
        let s1 = Machine { mem: s.mem.update(ptr, w), ..t };
        assert(!s.halted());
        assert(step(s) == s1);
        lemma_step_preserves_wf(s);
        let rest = s.prog.subrange(s.ip + 1 as int, s.prog.len() as int);
        assert(whole[0] == b);
        assert(whole.drop_first() =~= rest);
        let d: int = if b == 43u8 {
            1
        } else {
            -1
        };
        assert(net_change(whole) == d + net_change(rest));
        assert(s1.mem[ptr] == w);
        lemma_inc_dec_seg(s1);
        assert(steps(s, (s.prog.len() - s.ip) as nat) == steps(
            s1,
            (s.prog.len() - s.ip - 1) as nat,
        ));
        // one wrapped update followed by the rest's net change is one
        // combined wrapped update
        assert(w as int == (v + d) % 256) by {
            if b == 43u8 && v == 255 {
                assert((255 + 1) % 256 == 0);
            } else if b != 43u8 && v == 0 {
                assert((0 + (-1)) % 256 == 255);
            } else {
                lemma_small_mod((v + d) as nat, 256);
            }
        }
        assert(cell_after(w, net_change(rest)) == cell_after(v, net_change(whole))) by {
            lemma_mod_add_assoc(v + d, net_change(rest));
        }
        assert(s1.mem.update(ptr, cell_after(w, net_change(rest))) =~= s.mem.update(
            ptr,
            cell_after(v, net_change(whole)),
        ));
    }
}

/// Law: for every tape size of at least one cell and every program of only
/// increment (43) and decrement (45) bytes, the run halts without error after
/// consuming the whole stream, with nothing written to the output, the
/// pointer still at cell 0, and cell 0 holding the number of increments minus
/// the number of decrements, reduced modulo 256 — independent of how the
/// increments and decrements are grouped.
pub proof fn law_inc_dec(size: nat, prog: Seq<u8>)
    requires
        size >= 1,
        forall|k: int| 0 <= k < prog.len() ==> prog[k] == 43u8 || prog[k] == 45u8,
    ensures
        steps(init_machine(size, prog), prog.len()).halted(),
        steps(init_machine(size, prog), prog.len()).err is None,
        steps(init_machine(size, prog), prog.len()).mem[0] as int == net_change(prog) % 256,
        steps(init_machine(size, prog), prog.len()).out == Seq::<u8>::empty(),
        steps(init_machine(size, prog), prog.len()).ptr == 0,
{
    let s = init_machine(size, prog);
    lemma_inc_dec_seg(s);
    assert(prog.subrange(0, prog.len() as int) =~= prog);
    let f = steps(s, prog.len());
    assert(f.mem[0] == cell_after(0u8, net_change(prog)));
    lemma_mod_bound(net_change(prog), 256);
}

/// Law: a run of `k` consecutive pointer-right bytes from pointer position
/// `p` moves the pointer to `p + k` when that is on the tape; otherwise the
/// run halts with `PointerOverrun` after the move that would leave the tape,
/// with the pointer remaining at the last valid position, the last cell.
pub proof fn law_pointer_motion(s: Machine, k: nat)
    requires
        s.wf(),
        s.err is None,
        s.ip + k <= s.prog.len(),
        forall|i: int| s.ip <= i < s.ip + k ==> s.prog[i] == 62u8,
    ensures
        s.ptr + k < s.mem.len() ==> steps(s, k) == (Machine {
            ip: (s.ip + k) as nat,
            ptr: (s.ptr + k) as nat,
            ..s
        }),
        s.ptr + k >= s.mem.len() ==> steps(s, (s.mem.len() - s.ptr) as nat) == (Machine {
            ip: (s.ip + s.mem.len() - s.ptr) as nat,
            ptr: (s.mem.len() - 1) as nat,
            err: Some(ErrorKind::PointerOverrun),
            ..s
        }) && steps(s, (s.mem.len() - s.ptr) as nat).halted(),
    decreases k,
{
    if k == 0 {
        assert(steps(s, 0) == s);
    } else {
        let t = Machine { ip: (s.ip + 1) as nat, ..s };
        assert(!s.halted());
        assert(s.prog[s.ip as int] == 62u8);
        assert(spec_byte_to_command(62u8) == Some(Command::MovePointerRight));
        if s.ptr + 1 < s.mem.len() {
            let s1 = Machine { ptr: (s.ptr + 1) as nat, ..t };
            assert(step(s) == s1);
            law_pointer_motion(s1, (k - 1) as nat);
            assert(steps(s, k) == steps(s1, (k - 1) as nat));
        } else {
            let s1 = Machine { err: Some(ErrorKind::PointerOverrun), ..t };
            assert(step(s) == s1);
            assert(s.mem.len() - s.ptr == 1);
            assert(steps(s, 1) == steps(s1, 0));
        }
    }
}

/// Law: a loop-start reached with the current cell zero skips its body in a
/// single dispatch, with zero net side effects: tape, pointer, output, open
/// loops and error state are all unchanged, and execution continues just past
/// the matching loop-end, which is the loop-end found by `find_close`.
pub proof fn law_skip_zero_loop(s: Machine)
    requires
        s.wf(),
        !s.halted(),
        s.prog[s.ip as int] == 91u8,
        s.mem[s.ptr as int] == 0,
        find_close(s.prog, s.ip + 1, 1) is Some,
    ensures
        step(s) == (Machine { ip: find_close(s.prog, s.ip + 1, 1)->0, ..s }),
        s.ip + 1 < find_close(s.prog, s.ip + 1, 1)->0 <= s.prog.len(),
        s.prog[find_close(s.prog, s.ip + 1, 1)->0 - 1] == 93u8,
{
    lemma_find_close_range(s.prog, s.ip + 1, 1);
}

/// After a countdown loop's loop-start at `pos` has been executed, each pass
/// through its one-decrement body takes two dispatches, and the loop exits
/// after exactly as many passes as the cell's value, leaving the cell zero.
proof fn lemma_countdown_iters(s: Machine, pos: nat)
    requires
        s.wf(),
        s.err is None,
        s.opens.len() >= 1,
        s.opens.last() == pos,
        s.ip == pos + 1,
        pos + 3 <= s.prog.len(),
        s.prog[pos as int] == 91u8,
        s.prog[pos + 1 as int] == 45u8,
        s.prog[pos + 2 as int] == 93u8,
        s.mem[s.ptr as int] != 0,
    ensures
        steps(s, 2 * (s.mem[s.ptr as int] as nat)) == (Machine {
            ip: (pos + 3) as nat,
            opens: s.opens.drop_last(),
            mem: s.mem.update(s.ptr as int, 0u8),
            ..s
        }),
    decreases s.mem[s.ptr as int],
{
    let ptr = s.ptr as int;
    let v = s.mem[ptr];
    let t1 = Machine { ip: (pos + 2) as nat, ..s };
    let s1 = Machine { mem: s.mem.update(ptr, wrap_dec(v)), ..t1 };
    assert(!s.halted());
    assert(spec_byte_to_command(45u8) == Some(Command::DecrementByte));
    assert(step(s) == s1);
    lemma_step_preserves_wf(s);
    assert(!s1.halted());
    assert(spec_byte_to_command(93u8) == Some(Command::JumpLeftIfNonZero));
    assert(s1.mem[ptr] == wrap_dec(v));
    let s2 = step(s1);
    lemma_step_preserves_wf(s1);
    assert(steps(s, 2 * (v as nat)) == steps(s1, (2 * (v as nat) - 1) as nat));
    assert(steps(s1, (2 * (v as nat) - 1) as nat) == steps(s2, (2 * (v as nat) - 2) as nat));
    if v == 1 {
        assert(s2 == (Machine {
            ip: (pos + 3) as nat,
            opens: s.opens.drop_last(),
            mem: s.mem.update(ptr, 0u8),
            ..s
        }));
        assert(steps(s2, 0) == s2);
    } else {
        assert(s2 == (Machine { mem: s.mem.update(ptr, wrap_dec(v)), ..s }));
        assert(s2.mem[ptr] == wrap_dec(v));
        lemma_countdown_iters(s2, pos);
        assert(2 * (v as nat) - 2 == 2 * (wrap_dec(v) as nat));
        assert(s2.mem.update(ptr, 0u8) =~= s.mem.update(ptr, 0u8));
    }
}

/// Law: a loop whose condition cell starts at `v` and whose body is exactly
/// one decrement of that cell executes the body exactly `v` times — one
/// dispatch for the loop-start plus two per pass — then exits with the cell
/// zero and everything else unchanged. With `v == 0` the body is skipped and
/// the single dispatch changes nothing but the instruction position.
pub proof fn law_countdown_loop(s: Machine)
    requires
        s.wf(),
        s.err is None,
        s.ip + 3 <= s.prog.len(),
        s.prog[s.ip as int] == 91u8,
        s.prog[s.ip + 1 as int] == 45u8,
        s.prog[s.ip + 2 as int] == 93u8,
    ensures
        steps(s, 1 + 2 * (s.mem[s.ptr as int] as nat)) == (Machine {
            ip: (s.ip + 3) as nat,
            mem: s.mem.update(s.ptr as int, 0u8),
            ..s
        }),
{
    let ptr = s.ptr as int;
    let v = s.mem[ptr];
    let t = Machine { ip: (s.ip + 1) as nat, ..s };
    assert(!s.halted());
    assert(spec_byte_to_command(91u8) == Some(Command::JumpRightIfZero));
    if v == 0 {
        assert(find_close(s.prog, s.ip + 2, 1) == Some((s.ip + 3) as nat));
        assert(find_close(s.prog, s.ip + 1, 1) == Some((s.ip + 3) as nat));
        assert(step(s) == (Machine { ip: (s.ip + 3) as nat, ..s }));
        assert(steps(s, 1) == steps(step(s), 0));
        assert(s.mem.update(ptr, 0u8) =~= s.mem);
    } else {
        let s1 = Machine { opens: s.opens.push(s.ip), ..t };
        assert(step(s) == s1);
        lemma_step_preserves_wf(s);
        assert(s1.opens.last() == s.ip);
        lemma_countdown_iters(s1, s.ip);
        assert(s1.opens.drop_last() =~= s.opens);
        assert(steps(s, 1 + 2 * (v as nat)) == steps(s1, 2 * (v as nat)));
    }
}

/// After a clearing loop's loop-start at `pos` has been executed on a
/// non-zero cell, each pass through its one-increment body takes two
/// dispatches, and the loop exits once the cell wraps around to zero:
/// 256 minus the cell's value passes.
proof fn lemma_clear_iters(s: Machine, pos: nat)
    requires
        s.wf(),
        s.err is None,
        s.opens.len() >= 1,
        s.opens.last() == pos,
        s.ip == pos + 1,
        pos + 3 <= s.prog.len(),
        s.prog[pos as int] == 91u8,
        s.prog[pos + 1 as int] == 43u8,
        s.prog[pos + 2 as int] == 93u8,
        s.mem[s.ptr as int] != 0,
    ensures
        steps(s, 2 * ((256 - s.mem[s.ptr as int]) as nat)) == (Machine {
            ip: (pos + 3) as nat,
            opens: s.opens.drop_last(),
            mem: s.mem.update(s.ptr as int, 0u8),
            ..s
        }),
    decreases 256 - s.mem[s.ptr as int],
{
    let ptr = s.ptr as int;
    let v = s.mem[ptr];
    let t1 = Machine { ip: (pos + 2) as nat, ..s };
    let s1 = Machine { mem: s.mem.update(ptr, wrap_inc(v)), ..t1 };
    assert(!s.halted());
    assert(spec_byte_to_command(43u8) == Some(Command::IncrementByte));
    assert(step(s) == s1);
    lemma_step_preserves_wf(s);
    assert(!s1.halted());
    assert(spec_byte_to_command(93u8) == Some(Command::JumpLeftIfNonZero));
    assert(s1.mem[ptr] == wrap_inc(v));
    let s2 = step(s1);
    lemma_step_preserves_wf(s1);
    let m = (256 - v) as nat;
    assert(steps(s, 2 * m) == steps(s1, (2 * m - 1) as nat));
    assert(steps(s1, (2 * m - 1) as nat) == steps(s2, (2 * m - 2) as nat));
    if v == 255 {
        assert(s2 == (Machine {
            ip: (pos + 3) as nat,
            opens: s.opens.drop_last(),
            mem: s.mem.update(ptr, 0u8),
            ..s
        }));
        assert(steps(s2, 0) == s2);
    } else {
        assert(s2 == (Machine { mem: s.mem.update(ptr, wrap_inc(v)), ..s }));
        assert(s2.mem[ptr] == wrap_inc(v));
        lemma_clear_iters(s2, pos);
        assert(2 * m - 2 == 2 * ((256 - wrap_inc(v)) as nat));
        assert(s2.mem.update(ptr, 0u8) =~= s.mem.update(ptr, 0u8));
    }
}

/// Law: the classic cell-clearing idiom, a loop whose body is exactly one
/// increment. On a non-zero cell it wraps the cell up to zero — 256 minus the
/// cell's value passes, two dispatches each, after the opening dispatch —
/// then halts the loop normally with the cell zero and everything else
/// unchanged. On a zero cell it is a no-op: one dispatch that only moves
/// execution past the loop.
pub proof fn law_clear_loop(s: Machine)
    requires
        s.wf(),
        s.err is None,
        s.ip + 3 <= s.prog.len(),
        s.prog[s.ip as int] == 91u8,
        s.prog[s.ip + 1 as int] == 43u8,
        s.prog[s.ip + 2 as int] == 93u8,
    ensures
        s.mem[s.ptr as int] == 0 ==> step(s) == (Machine { ip: (s.ip + 3) as nat, ..s }),
        s.mem[s.ptr as int] != 0 ==> steps(s, 1 + 2 * ((256 - s.mem[s.ptr as int]) as nat)) == (
        Machine { ip: (s.ip + 3) as nat, mem: s.mem.update(s.ptr as int, 0u8), ..s }),
{
    let ptr = s.ptr as int;
    let v = s.mem[ptr];
    let t = Machine { ip: (s.ip + 1) as nat, ..s };
    assert(!s.halted());
    assert(spec_byte_to_command(91u8) == Some(Command::JumpRightIfZero));
    if v == 0 {
        assert(find_close(s.prog, s.ip + 2, 1) == Some((s.ip + 3) as nat));
        assert(find_close(s.prog, s.ip + 1, 1) == Some((s.ip + 3) as nat));
        assert(step(s) == (Machine { ip: (s.ip + 3) as nat, ..s }));
    } else {
        let s1 = Machine { opens: s.opens.push(s.ip), ..t };
        assert(step(s) == s1);
        lemma_step_preserves_wf(s);
        assert(s1.opens.last() == s.ip);
        lemma_clear_iters(s1, s.ip);
        assert(s1.opens.drop_last() =~= s.opens);
        assert(steps(s, 1 + 2 * ((256 - v) as nat)) == steps(s1, 2 * ((256 - v) as nat)));
    }
}

/// Law: a loop-end dispatched with no currently-open loop halts the run with
/// `UnmatchedLoopEnd`; the byte is still consumed, and nothing else changes.
pub proof fn law_unmatched_loop_end(s: Machine)
    requires
        s.wf(),
        !s.halted(),
        s.prog[s.ip as int] == 93u8,
        s.opens.len() == 0,
    ensures
        step(s) == (Machine {
            ip: (s.ip + 1) as nat,
            err: Some(ErrorKind::UnmatchedLoopEnd),
            ..s
        }),
        step(s).halted(),
{
    assert(spec_byte_to_command(93u8) == Some(Command::JumpLeftIfNonZero));
}

/// Law: a loop-start reached with the current cell zero whose body never
/// rebalances — no matching loop-end anywhere in the remaining stream — halts
/// the run with `UnmatchedLoopStart`, the whole remaining stream counting as
/// consumed. (With a non-zero cell no skip happens: the loop merely opens,
/// and a stream that then runs out ends the run without error.)
pub proof fn law_unmatched_loop_start(s: Machine)
    requires
        s.wf(),
        !s.halted(),
        s.prog[s.ip as int] == 91u8,
        s.mem[s.ptr as int] == 0,
        find_close(s.prog, s.ip + 1, 1) is None,
    ensures
        step(s) == (Machine {
            ip: s.prog.len(),
            err: Some(ErrorKind::UnmatchedLoopStart),
            ..s
        }),
        step(s).halted(),
{
    assert(spec_byte_to_command(91u8) == Some(Command::JumpRightIfZero));
}

} // verus!
