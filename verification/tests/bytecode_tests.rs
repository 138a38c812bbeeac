use evm_actor::bytecode::{Bytecode, BytecodeError, MAX_CODE_SIZE};

#[test]
fn empty_code_is_rejected() {
    match Bytecode::new(Vec::new()) {
        Err(BytecodeError::EmptyCode) => (),
        _ => panic!("empty code must be rejected"),
    }
}

#[test]
fn oversized_code_is_rejected() {
    match Bytecode::new(vec![0u8; MAX_CODE_SIZE + 1]) {
        Err(BytecodeError::OversizedCode) => (),
        _ => panic!("oversized code must be rejected"),
    }
}

#[test]
fn maximum_size_code_is_accepted() {
    let bc = Bytecode::new(vec![0u8; MAX_CODE_SIZE]).unwrap();
    assert_eq!(bc.code.len(), MAX_CODE_SIZE);
}

#[test]
fn lone_marker_byte_is_a_jump_destination() {
    let bc = Bytecode::new(vec![0x5b]).unwrap();
    assert_eq!(bc.jumpdests, vec![true]);
}

#[test]
fn push_immediates_are_not_jump_destinations() {
    // PUSH2 with two marker bytes as immediate data, then a real marker.
    let bc = Bytecode::new(vec![0x61, 0x5b, 0x5b, 0x5b]).unwrap();
    assert_eq!(bc.jumpdests, vec![false, false, false, true]);
}

#[test]
fn push_at_end_of_code_skips_cleanly() {
    // PUSH32 with only one immediate byte present.
    let bc = Bytecode::new(vec![0x7f, 0x5b]).unwrap();
    assert_eq!(bc.jumpdests, vec![false, false]);
}

#[test]
fn markers_between_instructions_are_found() {
    // JUMPDEST, PUSH1 0x5b, JUMPDEST, STOP
    let bc = Bytecode::new(vec![0x5b, 0x60, 0x5b, 0x5b, 0x00]).unwrap();
    assert_eq!(bc.jumpdests, vec![true, false, false, true, false]);
}
