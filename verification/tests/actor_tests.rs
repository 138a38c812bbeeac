use evm_actor::actor::{
    Actor, ActorError, ConstructorParams, ContractState, InvokeParams, Method,
};
use evm_actor::buffer::word_to_be_bytes;
use evm_actor::interpreter::{ExecStatus, FaultKind, Outcome};
use evm_actor::storage::StateStore;
use evm_actor::system::{SendResponse, System};
use evm_actor::word::U256;

/// Constructor code that returns the given runtime code (at most 32 bytes):
/// it stores the runtime right-aligned in one memory word and returns
/// exactly the runtime's bytes.
fn deploy_code(runtime: &[u8]) -> Vec<u8> {
    assert!(!runtime.is_empty() && runtime.len() <= 32);
    let pad = 32 - runtime.len();
    let mut code = vec![0x7f];
    code.extend_from_slice(&vec![0u8; pad]);
    code.extend_from_slice(runtime);
    code.push(0x60);
    code.push(0x00);
    code.push(0x52);
    code.push(0x60);
    code.push(runtime.len() as u8);
    code.push(0x60);
    code.push(pad as u8);
    code.push(0xf3);
    code
}

fn deploy(store: &StateStore, runtime: &[u8]) -> ContractState {
    let params = ConstructorParams { bytecode: deploy_code(runtime), input_data: Vec::new() };
    Actor::constructor(store, params, 1, 2).unwrap()
}

fn invoke(
    store: &StateStore,
    state: &mut ContractState,
    input: Vec<u8>,
) -> Result<evm_actor::actor::InvokeResult, ActorError> {
    Actor::invoke_contract(store, state, InvokeParams { input_data: input }, 1, 2)
}

/// A runtime that treats a 32-byte input as a key to read, and a 64-byte
/// input as a key and value to write; either way it returns the slot's
/// value after the call.
fn kv_runtime() -> Vec<u8> {
    vec![
        0x36, 0x60, 0x20, 0x14, 0x60, 0x0e, 0x57, // if input is 32 bytes, jump to the read
        0x60, 0x20, 0x35, 0x60, 0x00, 0x35, 0x55, // store input[32..64] under input[0..32]
        0x5b, 0x60, 0x00, 0x35, 0x54, // read the slot under input[0..32]
        0x60, 0x00, 0x52, 0x60, 0x20, 0x60, 0x00, 0xf3, // return it as one word
    ]
}

fn be32(x: u64) -> Vec<u8> {
    word_to_be_bytes(U256::from_u64(x))
}

fn word_output(value_last_byte: u8) -> Vec<u8> {
    let mut out = vec![0u8; 32];
    out[31] = value_last_byte;
    out
}

#[test]
fn construct_rejects_empty_code() {
    let store = StateStore::new();
    let params = ConstructorParams { bytecode: Vec::new(), input_data: Vec::new() };
    let r = Actor::constructor(&store, params, 1, 2);
    assert!(matches!(r, Err(ActorError::IllegalArgument)));
}

#[test]
fn construct_rejects_oversized_code() {
    let store = StateStore::new();
    let params = ConstructorParams { bytecode: vec![0u8; 24577], input_data: Vec::new() };
    let r = Actor::constructor(&store, params, 1, 2);
    assert!(matches!(r, Err(ActorError::IllegalArgument)));
}

#[test]
fn construct_requires_nonempty_output() {
    let store = StateStore::new();
    // STOP: a successful run with no output installs nothing.
    let params = ConstructorParams { bytecode: vec![0x00], input_data: Vec::new() };
    let r = Actor::constructor(&store, params, 1, 2);
    assert!(matches!(r, Err(ActorError::Unspecified)));
}

#[test]
fn construct_fails_when_the_run_reverts() {
    let store = StateStore::new();
    let params = ConstructorParams {
        bytecode: vec![0x60, 0x00, 0x60, 0x00, 0xfd],
        input_data: Vec::new(),
    };
    let r = Actor::constructor(&store, params, 1, 2);
    assert!(matches!(r, Err(ActorError::Unspecified)));
}

#[test]
fn constructed_contract_reverts_and_keeps_its_storage_root() {
    let store = StateStore::new();
    // A 10-byte runtime that reverts with a 32-byte payload ending in 42.
    let runtime = vec![0x60, 0x2a, 0x60, 0x00, 0x52, 0x60, 0x20, 0x60, 0x00, 0xfd];
    let mut state = deploy(&store, &runtime);
    let root_before = state.contract_state.clone();
    let res = invoke(&store, &mut state, vec![1, 2, 3]).unwrap();
    assert!(res.reverted);
    assert_eq!(res.output_data, word_output(42));
    assert_eq!(res.selfdestruct, None);
    assert_eq!(state.contract_state, root_before);
}

#[test]
fn storage_persists_across_invocations() {
    let store = StateStore::new();
    let mut state = deploy(&store, &kv_runtime());
    let root_before = state.contract_state.clone();

    // Write value 7 under key 1; the call returns the written slot.
    let mut input = be32(1);
    input.extend_from_slice(&be32(7));
    let res = invoke(&store, &mut state, input).unwrap();
    assert!(!res.reverted);
    assert_eq!(res.output_data, word_output(7));
    assert_ne!(state.contract_state, root_before);

    // Read key 1 back in a fresh invocation.
    let res = invoke(&store, &mut state, be32(1)).unwrap();
    assert!(!res.reverted);
    assert_eq!(res.output_data, word_output(7));
}

#[test]
fn reading_a_key_never_written_returns_zero() {
    let store = StateStore::new();
    let mut state = deploy(&store, &kv_runtime());
    let res = invoke(&store, &mut state, be32(9)).unwrap();
    assert!(!res.reverted);
    assert_eq!(res.output_data, vec![0u8; 32]);
}

#[test]
fn reverted_writes_leave_the_storage_root_unchanged() {
    let store = StateStore::new();
    // Write 5 under key 1, then revert with empty output.
    let runtime = vec![0x60, 0x05, 0x60, 0x01, 0x55, 0x60, 0x00, 0x60, 0x00, 0xfd];
    let mut state = deploy(&store, &runtime);
    let root_before = state.contract_state.clone();
    let res = invoke(&store, &mut state, Vec::new()).unwrap();
    assert!(res.reverted);
    assert_eq!(res.output_data, Vec::<u8>::new());
    assert_eq!(res.selfdestruct, None);
    assert_eq!(state.contract_state, root_before);
}

#[test]
fn selfdestruct_target_is_returned_on_commit() {
    let store = StateStore::new();
    let runtime = vec![0x60, 0x07, 0xff];
    let mut state = deploy(&store, &runtime);
    let res = invoke(&store, &mut state, Vec::new()).unwrap();
    assert!(!res.reverted);
    assert_eq!(res.selfdestruct, Some(U256::from_u64(7)));
}

#[test]
fn writes_made_during_construction_are_visible_later() {
    let store = StateStore::new();
    // Prefix the deploy code with a write of 5 under key 1.
    let mut code = vec![0x60, 0x05, 0x60, 0x01, 0x55];
    code.extend_from_slice(&deploy_code(&kv_runtime()));
    let params = ConstructorParams { bytecode: code, input_data: Vec::new() };
    let mut state = Actor::constructor(&store, params, 1, 2).unwrap();
    let res = invoke(&store, &mut state, be32(1)).unwrap();
    assert_eq!(res.output_data, word_output(5));
}

#[test]
fn construct_with_the_codecopy_deploy_pattern() {
    let store = StateStore::new();
    let runtime = vec![0x60, 0x2a, 0x60, 0x00, 0x52, 0x60, 0x20, 0x60, 0x00, 0xfd];
    // PUSH1 size, PUSH1 12, PUSH1 0, CODECOPY, PUSH1 size, PUSH1 0, RETURN, <runtime>
    let mut code = vec![
        0x60, runtime.len() as u8, 0x60, 0x0c, 0x60, 0x00, 0x39, 0x60, runtime.len() as u8, 0x60,
        0x00, 0xf3,
    ];
    code.extend_from_slice(&runtime);
    let params = ConstructorParams { bytecode: code, input_data: Vec::new() };
    let mut state = Actor::constructor(&store, params, 1, 2).unwrap();
    let res = invoke(&store, &mut state, Vec::new()).unwrap();
    assert!(res.reverted);
    assert_eq!(res.output_data, word_output(42));
}

#[test]
fn interpreter_fault_fails_the_whole_invocation() {
    let store = StateStore::new();
    let runtime = vec![0xfe];
    let mut state = deploy(&store, &runtime);
    let root_before = state.contract_state.clone();
    let r = invoke(&store, &mut state, Vec::new());
    assert!(matches!(r, Err(ActorError::Unspecified)));
    assert_eq!(state.contract_state, root_before);
}

#[test]
fn endless_contract_exhausts_the_step_budget() {
    let store = StateStore::new();
    // JUMPDEST, PUSH1 0, JUMP: an endless loop
    let runtime = vec![0x5b, 0x60, 0x00, 0x56];
    let mut state = deploy(&store, &runtime);
    let r = invoke(&store, &mut state, Vec::new());
    assert!(matches!(r, Err(ActorError::Unspecified)));
}

#[test]
fn unreadable_stored_state_fails_the_call() {
    let store = StateStore::new();
    let mut state = ContractState { bytecode: vec![1, 2, 3], contract_state: vec![9] };
    let r = invoke(&store, &mut state, Vec::new());
    assert!(matches!(r, Err(ActorError::IllegalState)));
}

#[test]
fn settle_returns_revert_output_without_committing() {
    let store = StateStore::new();
    let mut sys = System::new_empty(&store, 1, 2).unwrap();
    let mut state = ContractState { bytecode: vec![1], contract_state: vec![2] };
    let out = Outcome { status: ExecStatus::Revert, output: vec![9, 9], selfdestruct: None };
    let res = Actor::settle_invocation(out, &mut state, &mut sys).unwrap();
    assert!(res.reverted);
    assert_eq!(res.output_data, vec![9, 9]);
    assert_eq!(res.selfdestruct, None);
    assert_eq!(state.contract_state, vec![2]);
}

#[test]
fn settle_fails_a_faulted_run_and_changes_nothing() {
    let store = StateStore::new();
    let mut sys = System::new_empty(&store, 1, 2).unwrap();
    let mut state = ContractState { bytecode: vec![1], contract_state: vec![2] };
    let out = Outcome {
        status: ExecStatus::Fault(FaultKind::UnknownOpcode),
        output: Vec::new(),
        selfdestruct: None,
    };
    let r = Actor::settle_invocation(out, &mut state, &mut sys);
    assert!(matches!(r, Err(ActorError::Unspecified)));
    assert_eq!(state.contract_state, vec![2]);
}

#[test]
fn settle_commits_a_successful_run() {
    let store = StateStore::new();
    let mut sys = System::new_empty(&store, 1, 2).unwrap();
    let mut state = ContractState { bytecode: vec![1], contract_state: vec![2] };
    let out = Outcome {
        status: ExecStatus::Success,
        output: vec![5],
        selfdestruct: Some(U256::from_u64(7)),
    };
    let res = Actor::settle_invocation(out, &mut state, &mut sys).unwrap();
    assert!(!res.reverted);
    assert_eq!(res.output_data, vec![5]);
    assert_eq!(res.selfdestruct, Some(U256::from_u64(7)));
    assert_ne!(state.contract_state, vec![2]);
}

#[test]
fn send_outcomes_translate_to_responses_never_faults() {
    let ok = System::send_response(Ok(Some(vec![1, 2])));
    assert_eq!(ok, SendResponse { exit_code: 0, return_data: Some(vec![1, 2]) });
    let failed = System::send_response(Err(33));
    assert_eq!(failed, SendResponse { exit_code: 33, return_data: None });
}

#[test]
fn method_numbers_map_to_the_two_entry_points() {
    assert_eq!(Method::from_num(1), Some(Method::Constructor));
    assert_eq!(Method::from_num(2), Some(Method::InvokeContract));
    assert_eq!(Method::from_num(3), None);
    assert_eq!(Method::from_num(0), None);
}
