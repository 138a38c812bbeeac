use evm_actor::bytecode::Bytecode;
use evm_actor::interpreter::{execute, ExecStatus, FaultKind, Outcome};
use evm_actor::state::ExecutionState;
use evm_actor::storage::StateStore;
use evm_actor::system::System;
use evm_actor::word::U256;

fn run_code(code: Vec<u8>, input: Vec<u8>, step_limit: u64) -> Outcome {
    let store = StateStore::new();
    let mut sys = System::new_empty(&store, 10, 20).unwrap();
    let bc = Bytecode::new(code).unwrap();
    let mut st = ExecutionState::new(input);
    execute(&bc, &mut st, &mut sys, step_limit)
}

fn word_output(value_last_byte: u8) -> Vec<u8> {
    let mut out = vec![0u8; 32];
    out[31] = value_last_byte;
    out
}

#[test]
fn addition_program_returns_sum() {
    // PUSH1 1, PUSH1 2, ADD, PUSH1 0, MSTORE, PUSH1 32, PUSH1 0, RETURN
    let code = vec![0x60, 0x01, 0x60, 0x02, 0x01, 0x60, 0x00, 0x52, 0x60, 0x20, 0x60, 0x00, 0xf3];
    let out = run_code(code, Vec::new(), 1000);
    assert_eq!(out.status, ExecStatus::Success);
    assert_eq!(out.output, word_output(3));
    assert_eq!(out.selfdestruct, None);
}

#[test]
fn multiplication_program_returns_product() {
    // PUSH1 6, PUSH1 7, MUL -> 42, returned from memory
    let code = vec![0x60, 0x06, 0x60, 0x07, 0x02, 0x60, 0x00, 0x52, 0x60, 0x20, 0x60, 0x00, 0xf3];
    let out = run_code(code, Vec::new(), 1000);
    assert_eq!(out.status, ExecStatus::Success);
    assert_eq!(out.output, word_output(42));
}

#[test]
fn subtraction_wraps_modulo_word_size() {
    // PUSH1 1, PUSH1 0, SUB -> 0 - 1, returned from memory
    let code = vec![0x60, 0x01, 0x60, 0x00, 0x03, 0x60, 0x00, 0x52, 0x60, 0x20, 0x60, 0x00, 0xf3];
    let out = run_code(code, Vec::new(), 1000);
    assert_eq!(out.status, ExecStatus::Success);
    assert_eq!(out.output, vec![0xffu8; 32]);
}

#[test]
fn dup_duplicates_the_top_word() {
    // PUSH1 5, DUP1, ADD -> 10
    let code = vec![0x60, 0x05, 0x80, 0x01, 0x60, 0x00, 0x52, 0x60, 0x20, 0x60, 0x00, 0xf3];
    let out = run_code(code, Vec::new(), 1000);
    assert_eq!(out.status, ExecStatus::Success);
    assert_eq!(out.output, word_output(10));
}

#[test]
fn swap_exchanges_stack_words() {
    // PUSH1 1, PUSH1 7, SWAP1, POP -> top is 7
    let code = vec![
        0x60, 0x01, 0x60, 0x07, 0x90, 0x50, 0x60, 0x00, 0x52, 0x60, 0x20, 0x60, 0x00, 0xf3,
    ];
    let out = run_code(code, Vec::new(), 1000);
    assert_eq!(out.status, ExecStatus::Success);
    assert_eq!(out.output, word_output(7));
}

#[test]
fn calldataload_reads_input_zero_padded() {
    // PUSH1 0, CALLDATALOAD, PUSH1 0, MSTORE, RETURN(0, 32)
    let code = vec![0x60, 0x00, 0x35, 0x60, 0x00, 0x52, 0x60, 0x20, 0x60, 0x00, 0xf3];
    let out = run_code(code, vec![0xab, 0xcd], 1000);
    assert_eq!(out.status, ExecStatus::Success);
    let mut expected = vec![0u8; 32];
    expected[0] = 0xab;
    expected[1] = 0xcd;
    assert_eq!(out.output, expected);
}

#[test]
fn address_and_caller_come_from_the_system_layer() {
    // ADDRESS, CALLER, ADD -> 10 + 20
    let code = vec![0x30, 0x33, 0x01, 0x60, 0x00, 0x52, 0x60, 0x20, 0x60, 0x00, 0xf3];
    let out = run_code(code, Vec::new(), 1000);
    assert_eq!(out.status, ExecStatus::Success);
    assert_eq!(out.output, word_output(30));
}

#[test]
fn codesize_pushes_the_code_length() {
    // CODESIZE, PUSH1 0, MSTORE, RETURN(0, 32); total length 11
    let code = vec![0x38, 0x60, 0x00, 0x52, 0x60, 0x20, 0x60, 0x00, 0xf3, 0x00, 0x00];
    let out = run_code(code, Vec::new(), 1000);
    assert_eq!(out.status, ExecStatus::Success);
    assert_eq!(out.output, word_output(11));
}

#[test]
fn codecopy_copies_code_into_memory() {
    // CODECOPY(dest 0, offset 12, size 3), then RETURN(0, 3); the three
    // bytes at offset 12 are trailing data, never executed.
    let code = vec![
        0x60, 0x03, 0x60, 0x0c, 0x60, 0x00, 0x39, // CODECOPY
        0x60, 0x03, 0x60, 0x00, 0xf3, // RETURN
        0x09, 0x08, 0x07, // data
    ];
    let out = run_code(code, Vec::new(), 1000);
    assert_eq!(out.status, ExecStatus::Success);
    assert_eq!(out.output, vec![0x09, 0x08, 0x07]);
}

#[test]
fn codecopy_pads_past_the_end_of_code_with_zeroes() {
    // CODECOPY(dest 0, offset 12, size 5): two bytes beyond the code.
    let code = vec![
        0x60, 0x05, 0x60, 0x0c, 0x60, 0x00, 0x39, // CODECOPY
        0x60, 0x05, 0x60, 0x00, 0xf3, // RETURN
        0x09, 0x08, 0x07, // data
    ];
    let out = run_code(code, Vec::new(), 1000);
    assert_eq!(out.status, ExecStatus::Success);
    assert_eq!(out.output, vec![0x09, 0x08, 0x07, 0x00, 0x00]);
}

#[test]
fn comparison_ops_push_one_or_zero() {
    // PUSH1 2, PUSH1 1, LT: a=1, b=2, so a < b holds and 1 is pushed
    let code = vec![0x60, 0x02, 0x60, 0x01, 0x10, 0x60, 0x00, 0x52, 0x60, 0x20, 0x60, 0x00, 0xf3];
    let out = run_code(code, Vec::new(), 1000);
    assert_eq!(out.output, word_output(1));
    // PUSH1 2, PUSH1 1, GT: 1 > 2 fails and 0 is pushed
    let code = vec![0x60, 0x02, 0x60, 0x01, 0x11, 0x60, 0x00, 0x52, 0x60, 0x20, 0x60, 0x00, 0xf3];
    let out = run_code(code, Vec::new(), 1000);
    assert_eq!(out.output, word_output(0));
    // PUSH1 5, PUSH1 5, EQ
    let code = vec![0x60, 0x05, 0x60, 0x05, 0x14, 0x60, 0x00, 0x52, 0x60, 0x20, 0x60, 0x00, 0xf3];
    let out = run_code(code, Vec::new(), 1000);
    assert_eq!(out.output, word_output(1));
    // PUSH1 0, ISZERO
    let code = vec![0x60, 0x00, 0x15, 0x60, 0x00, 0x52, 0x60, 0x20, 0x60, 0x00, 0xf3];
    let out = run_code(code, Vec::new(), 1000);
    assert_eq!(out.output, word_output(1));
}

#[test]
fn bitwise_ops_work_through_programs() {
    // PUSH1 0b1010, PUSH1 0b1100, AND -> 0b1000
    let code = vec![0x60, 0x0a, 0x60, 0x0c, 0x16, 0x60, 0x00, 0x52, 0x60, 0x20, 0x60, 0x00, 0xf3];
    let out = run_code(code, Vec::new(), 1000);
    assert_eq!(out.output, word_output(0b1000));
    // PUSH1 0b1010, PUSH1 0b1100, XOR -> 0b0110
    let code = vec![0x60, 0x0a, 0x60, 0x0c, 0x18, 0x60, 0x00, 0x52, 0x60, 0x20, 0x60, 0x00, 0xf3];
    let out = run_code(code, Vec::new(), 1000);
    assert_eq!(out.output, word_output(0b0110));
}

#[test]
fn pc_pushes_the_instruction_offset() {
    // JUMPDEST, PC: the counter at the PC instruction is 1
    let code = vec![0x5b, 0x58, 0x60, 0x00, 0x52, 0x60, 0x20, 0x60, 0x00, 0xf3];
    let out = run_code(code, Vec::new(), 1000);
    assert_eq!(out.output, word_output(1));
}

#[test]
fn push32_reads_all_its_immediate_bytes() {
    let mut code = vec![0x7f];
    code.extend_from_slice(&[0x11u8; 32]);
    code.extend_from_slice(&[0x60, 0x00, 0x52, 0x60, 0x20, 0x60, 0x00, 0xf3]);
    let out = run_code(code, Vec::new(), 1000);
    assert_eq!(out.output, vec![0x11u8; 32]);
}

#[test]
fn jump_skips_to_a_valid_destination() {
    // PUSH1 4, JUMP, <invalid opcode>, JUMPDEST, STOP
    let code = vec![0x60, 0x04, 0x56, 0xfe, 0x5b, 0x00];
    let out = run_code(code, Vec::new(), 1000);
    assert_eq!(out.status, ExecStatus::Success);
    assert_eq!(out.output, Vec::<u8>::new());
}

#[test]
fn jump_into_push_immediate_faults() {
    // PUSH1 0x5b (a marker byte hidden as immediate data), PUSH1 1, JUMP
    let code = vec![0x60, 0x5b, 0x60, 0x01, 0x56];
    let out = run_code(code, Vec::new(), 1000);
    assert_eq!(out.status, ExecStatus::Fault(FaultKind::BadJumpDestination));
}

#[test]
fn conditional_jump_falls_through_on_zero() {
    // PUSH1 0, PUSH1 6, JUMPI, STOP, <junk>, JUMPDEST, <invalid>
    let code = vec![0x60, 0x00, 0x60, 0x06, 0x57, 0x00, 0x5b, 0xfe];
    let out = run_code(code, Vec::new(), 1000);
    assert_eq!(out.status, ExecStatus::Success);
}

#[test]
fn conditional_jump_taken_on_nonzero() {
    // PUSH1 1, PUSH1 6, JUMPI, <invalid>, STOP at destination
    let code = vec![0x60, 0x01, 0x60, 0x06, 0x57, 0xfe, 0x5b, 0x00];
    let out = run_code(code, Vec::new(), 1000);
    assert_eq!(out.status, ExecStatus::Success);
}

#[test]
fn storage_write_then_read_in_one_run() {
    // PUSH1 7, PUSH1 3, SSTORE, PUSH1 3, SLOAD, return it
    let code = vec![
        0x60, 0x07, 0x60, 0x03, 0x55, 0x60, 0x03, 0x54, 0x60, 0x00, 0x52, 0x60, 0x20, 0x60, 0x00,
        0xf3,
    ];
    let out = run_code(code, Vec::new(), 1000);
    assert_eq!(out.status, ExecStatus::Success);
    assert_eq!(out.output, word_output(7));
}

#[test]
fn unwritten_storage_slot_reads_as_zero() {
    // PUSH1 9, SLOAD, return it
    let code = vec![0x60, 0x09, 0x54, 0x60, 0x00, 0x52, 0x60, 0x20, 0x60, 0x00, 0xf3];
    let out = run_code(code, Vec::new(), 1000);
    assert_eq!(out.status, ExecStatus::Success);
    assert_eq!(out.output, vec![0u8; 32]);
}

#[test]
fn revert_carries_its_output() {
    // PUSH1 42, PUSH1 0, MSTORE, PUSH1 32, PUSH1 0, REVERT
    let code = vec![0x60, 0x2a, 0x60, 0x00, 0x52, 0x60, 0x20, 0x60, 0x00, 0xfd];
    let out = run_code(code, Vec::new(), 1000);
    assert_eq!(out.status, ExecStatus::Revert);
    assert_eq!(out.output, word_output(42));
    assert_eq!(out.selfdestruct, None);
}

#[test]
fn selfdestruct_records_the_target_and_halts() {
    // PUSH1 7, SELFDESTRUCT
    let code = vec![0x60, 0x07, 0xff];
    let out = run_code(code, Vec::new(), 1000);
    assert_eq!(out.status, ExecStatus::Success);
    assert_eq!(out.output, Vec::<u8>::new());
    assert_eq!(out.selfdestruct, Some(U256::from_u64(7)));
}

#[test]
fn running_past_the_end_is_an_implicit_stop() {
    let code = vec![0x60, 0x01];
    let out = run_code(code, Vec::new(), 1000);
    assert_eq!(out.status, ExecStatus::Success);
    assert_eq!(out.output, Vec::<u8>::new());
}

#[test]
fn stack_underflow_faults() {
    let code = vec![0x01];
    let out = run_code(code, Vec::new(), 1000);
    assert_eq!(out.status, ExecStatus::Fault(FaultKind::StackUnderflow));
}

#[test]
fn unknown_opcode_faults() {
    let code = vec![0xfe];
    let out = run_code(code, Vec::new(), 1000);
    assert_eq!(out.status, ExecStatus::Fault(FaultKind::UnknownOpcode));
}

#[test]
fn exhausted_step_budget_faults() {
    // JUMPDEST, PUSH1 0, JUMP: an endless loop
    let code = vec![0x5b, 0x60, 0x00, 0x56];
    let out = run_code(code, Vec::new(), 500);
    assert_eq!(out.status, ExecStatus::Fault(FaultKind::StepLimitExceeded));
}

#[test]
fn stack_overflow_faults() {
    let mut code = Vec::new();
    for _ in 0..1025 {
        code.push(0x60);
        code.push(0x00);
    }
    let out = run_code(code, Vec::new(), 5000);
    assert_eq!(out.status, ExecStatus::Fault(FaultKind::StackOverflow));
}

#[test]
fn memory_access_past_the_limit_faults() {
    // PUSH1 1, NOT (a huge offset), MLOAD
    let code = vec![0x60, 0x01, 0x19, 0x51];
    let out = run_code(code, Vec::new(), 1000);
    assert_eq!(out.status, ExecStatus::Fault(FaultKind::MemoryLimitExceeded));
}
