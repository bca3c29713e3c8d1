use bfi::dtypes::ErrorKind;
use bfi::interpreter::BFInterpreter;

#[test]
fn new_interpreter_no_errors() {
    let bfi = BFInterpreter::new(8);
    assert!(bfi.error_kind().is_none());
    assert!(!bfi.terminated());
    assert!(!bfi.running());
}

#[test]
fn test_fill_in_buf() {
    // fill input buffer, no errors
    let mut bfi = BFInterpreter::new(8);
    bfi.fill_in_buff(String::from("++++"));
    assert!(bfi.error_kind().is_none());
}

#[test]
fn interpterter_run_inc_dec() {
    let progs: Vec<(String, u8)> = vec![
        // program, expected value
        (String::from("+++"), 3),
        (String::from("+++---"), 0),
    ];
    for (prog, exp_value) in progs {
        let mut bfi = BFInterpreter::new(8);
        bfi.fill_in_buff(prog);
        bfi.run();
        assert_eq!(bfi.memory()[0], exp_value);
    }
}

#[test]
fn interpreter_run_mv_ptr() {
    let progs: Vec<(String, usize)> = vec![
        // program, expected pointer value
        (String::from("+++>"), 1),
        (String::from("++>+-<--"), 0),
    ];
    for (prog, exp_value) in progs {
        let mut bfi = BFInterpreter::new(8);
        bfi.fill_in_buff(prog);
        bfi.run();
        assert_eq!(bfi.pointer(), exp_value);
    }
}

#[test]
fn fresh_engine_state() {
    let bfi = BFInterpreter::new(8);
    assert_eq!(bfi.memory().as_slice(), &[0u8; 8]);
    assert_eq!(bfi.pointer(), 0);
    assert!(bfi.output().is_empty());
    assert!(bfi.error_kind().is_none());
    assert!(bfi.error_message().is_none());
}

#[test]
fn run_plus_three() {
    // loading "+++" and running yields an empty output buffer, cell 0 at 3,
    // terminated, and no error
    let mut bfi = BFInterpreter::new(8);
    bfi.fill_in_buff(String::from("+++"));
    bfi.run();
    assert!(bfi.output().is_empty());
    assert_eq!(bfi.memory()[0], 3);
    assert!(bfi.terminated());
    assert!(!bfi.running());
    assert!(bfi.error_kind().is_none());
}

#[test]
fn inc_then_dec_cancels() {
    let mut bfi = BFInterpreter::new(8);
    bfi.fill_in_buff(String::from("+++---"));
    bfi.run();
    assert_eq!(bfi.memory()[0], 0);
    assert!(bfi.error_kind().is_none());
}

#[test]
fn pointer_right_after_increments() {
    let mut bfi = BFInterpreter::new(2);
    bfi.fill_in_buff(String::from("+++>"));
    bfi.run();
    assert_eq!(bfi.pointer(), 1);
    assert_eq!(bfi.memory()[0], 3);
    assert_eq!(bfi.memory()[1], 0);
    assert!(bfi.error_kind().is_none());
}

#[test]
fn pointer_underrun_on_fresh_engine() {
    // "<" on a freshly constructed engine halts immediately with
    // PointerUnderrun; the pointer stays at 0 and no cell is mutated
    let mut bfi = BFInterpreter::new(8);
    bfi.fill_in_buff(String::from("<"));
    bfi.run();
    assert_eq!(bfi.error_kind(), Some(ErrorKind::PointerUnderrun));
    assert_eq!(
        bfi.error_message(),
        Some("data pointer underran available memory")
    );
    assert_eq!(bfi.pointer(), 0);
    assert_eq!(bfi.memory().as_slice(), &[0u8; 8]);
    assert!(bfi.terminated());
}

#[test]
fn pointer_overrun_stops_at_last_cell() {
    let mut bfi = BFInterpreter::new(2);
    bfi.fill_in_buff(String::from(">>+"));
    bfi.run();
    assert_eq!(bfi.error_kind(), Some(ErrorKind::PointerOverrun));
    assert_eq!(
        bfi.error_message(),
        Some("data pointer overran available memory")
    );
    // the pointer remains at the last valid position reached, and the
    // increment after the failing move never executes
    assert_eq!(bfi.pointer(), 1);
    assert_eq!(bfi.memory().as_slice(), &[0u8, 0u8]);
}

#[test]
fn zero_cell_loop_is_skipped() {
    // cell 0 is zero at the loop-start, so the body (an output and an
    // increment) is skipped with no side effects, and execution continues
    // after the matching loop-end
    let mut bfi = BFInterpreter::new(8);
    bfi.fill_in_buff(String::from("[.+]+"));
    bfi.run();
    assert!(bfi.output().is_empty());
    assert_eq!(bfi.memory()[0], 1);
    assert!(bfi.error_kind().is_none());
}

#[test]
fn countdown_loop_runs_body_to_zero() {
    // the loop body decrements the condition cell once per pass, so it runs
    // exactly three times and exits with the cell at zero
    let mut bfi = BFInterpreter::new(8);
    bfi.fill_in_buff(String::from("+++[-]"));
    bfi.run();
    assert_eq!(bfi.memory()[0], 0);
    assert!(bfi.error_kind().is_none());
    assert!(bfi.terminated());
}

#[test]
fn countdown_loop_counts_passes() {
    // each pass of the outer countdown also increments cell 1, so cell 1
    // records how many times the body ran
    let mut bfi = BFInterpreter::new(2);
    bfi.fill_in_buff(String::from("+++[>+<-]"));
    bfi.run();
    assert_eq!(bfi.memory()[0], 0);
    assert_eq!(bfi.memory()[1], 3);
    assert!(bfi.error_kind().is_none());
}

#[test]
fn clear_loop_zeroes_nonzero_cell() {
    // "[+]" on a non-zero cell wraps it up to zero and halts normally
    let mut bfi = BFInterpreter::new(8);
    bfi.fill_in_buff(String::from("++[+]"));
    bfi.run();
    assert_eq!(bfi.memory()[0], 0);
    assert!(bfi.error_kind().is_none());
    assert!(bfi.terminated());
}

#[test]
fn clear_loop_on_zero_cell_is_noop() {
    // "[+]" on a zero cell is a no-op
    let mut bfi = BFInterpreter::new(8);
    bfi.fill_in_buff(String::from("[+]"));
    bfi.run();
    assert_eq!(bfi.memory()[0], 0);
    assert!(bfi.output().is_empty());
    assert!(bfi.error_kind().is_none());
}

#[test]
fn unmatched_loop_end_halts() {
    let mut bfi = BFInterpreter::new(8);
    bfi.fill_in_buff(String::from("+]"));
    bfi.run();
    assert_eq!(bfi.error_kind(), Some(ErrorKind::UnmatchedLoopEnd));
    assert_eq!(bfi.error_message(), Some("unmatched ]"));
    // the increment before the offending loop-end did execute
    assert_eq!(bfi.memory()[0], 1);
    assert!(bfi.terminated());
}

#[test]
fn unmatched_loop_start_halts() {
    // a zero cell triggers the skip, which exhausts the stream without a
    // balancing loop-end
    let mut bfi = BFInterpreter::new(8);
    bfi.fill_in_buff(String::from("[++"));
    bfi.run();
    assert_eq!(bfi.error_kind(), Some(ErrorKind::UnmatchedLoopStart));
    assert_eq!(bfi.error_message(), Some("could not find closing ]"));
    // the skipped bytes were consumed, never executed
    assert_eq!(bfi.memory()[0], 0);
    assert!(bfi.terminated());
}

#[test]
fn unclosed_loop_on_nonzero_cell_ends_quietly() {
    // with a non-zero cell the loop-start merely opens the loop; the stream
    // then runs out, which ends the run without an error
    let mut bfi = BFInterpreter::new(8);
    bfi.fill_in_buff(String::from("+["));
    bfi.run();
    assert!(bfi.error_kind().is_none());
    assert_eq!(bfi.memory()[0], 1);
    assert!(bfi.terminated());
}

#[test]
fn output_appends_current_cell() {
    let mut bfi = BFInterpreter::new(8);
    bfi.fill_in_buff(String::from("+++.>."));
    bfi.run();
    assert_eq!(bfi.output().as_slice(), &[3u8, 0u8]);
    assert!(bfi.error_kind().is_none());
}

#[test]
fn input_fails_closed() {
    let mut bfi = BFInterpreter::new(8);
    bfi.fill_in_buff(String::from(","));
    bfi.run();
    assert_eq!(bfi.error_kind(), Some(ErrorKind::InputExhausted));
    assert_eq!(bfi.error_message(), Some("input source exhausted"));
    assert!(bfi.terminated());
}

#[test]
fn decrement_wraps_to_255() {
    let mut bfi = BFInterpreter::new(8);
    bfi.fill_in_buff(String::from("-"));
    bfi.run();
    assert_eq!(bfi.memory()[0], 255);
    assert!(bfi.error_kind().is_none());
}

#[test]
fn increment_wraps_to_zero() {
    let mut bfi = BFInterpreter::new(8);
    bfi.fill_in_buff("+".repeat(256));
    bfi.run();
    assert_eq!(bfi.memory()[0], 0);
    assert!(bfi.error_kind().is_none());
}

#[test]
fn unrecognized_bytes_are_comments() {
    let mut bfi = BFInterpreter::new(8);
    bfi.fill_in_buff(String::from("+ one more: +"));
    bfi.run();
    assert_eq!(bfi.memory()[0], 2);
    assert!(bfi.error_kind().is_none());
}

#[test]
fn fill_in_buff_appends() {
    let mut bfi = BFInterpreter::new(8);
    bfi.fill_in_buff(String::from("+"));
    bfi.fill_in_buff(String::from("++"));
    bfi.run();
    assert_eq!(bfi.memory()[0], 3);
    assert!(bfi.error_kind().is_none());
}

#[test]
fn nested_loops_multiply() {
    // two passes of the outer loop each add two to cell 1 and transfer them
    // to cell 2: cell 2 ends at 4
    let mut bfi = BFInterpreter::new(4);
    bfi.fill_in_buff(String::from("++[>++[>+<-]<-]"));
    bfi.run();
    assert_eq!(bfi.memory().as_slice(), &[0u8, 0u8, 4u8, 0u8]);
    assert_eq!(bfi.pointer(), 0);
    assert!(bfi.error_kind().is_none());
}

#[test]
fn second_run_changes_nothing() {
    let mut bfi = BFInterpreter::new(8);
    bfi.fill_in_buff(String::from("+++."));
    bfi.run();
    bfi.run();
    assert_eq!(bfi.memory()[0], 3);
    assert_eq!(bfi.output().as_slice(), &[3u8]);
    assert!(bfi.terminated());
    assert!(bfi.error_kind().is_none());
}

#[test]
fn run_resumes_after_more_instructions() {
    let mut bfi = BFInterpreter::new(8);
    bfi.fill_in_buff(String::from("++"));
    bfi.run();
    bfi.fill_in_buff(String::from("+"));
    bfi.run();
    assert_eq!(bfi.memory()[0], 3);
    assert!(bfi.error_kind().is_none());
}
