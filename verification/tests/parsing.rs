use bfi::dtypes::Command;
use bfi::parsing::byte_to_command;

#[test]
fn recognizes_all_eight_symbols() {
    assert_eq!(byte_to_command(b'+'), Some(Command::IncrementByte));
    assert_eq!(byte_to_command(b','), Some(Command::InputByte));
    assert_eq!(byte_to_command(b'-'), Some(Command::DecrementByte));
    assert_eq!(byte_to_command(b'.'), Some(Command::OutputByte));
    assert_eq!(byte_to_command(b'<'), Some(Command::MovePointerLeft));
    assert_eq!(byte_to_command(b'>'), Some(Command::MovePointerRight));
    assert_eq!(byte_to_command(b'['), Some(Command::JumpRightIfZero));
    assert_eq!(byte_to_command(b']'), Some(Command::JumpLeftIfNonZero));
}

#[test]
fn other_bytes_are_no_instruction() {
    assert_eq!(byte_to_command(b'a'), None);
    assert_eq!(byte_to_command(b' '), None);
    assert_eq!(byte_to_command(b'\n'), None);
    assert_eq!(byte_to_command(0), None);
    assert_eq!(byte_to_command(255), None);
    assert_eq!(byte_to_command(b'='), None);
}
