//! The contract actor frontend: the construct and invoke entry points that
//! wire an incoming call into the loader, the interpreter and the storage
//! binding, and decide what becomes durable.
//!
//! The host provides caller-policy validation, the atomic transaction around
//! the durable state and actor deletion; this module hands it plain values:
//! the new contract state to persist, the output bytes to return, and the
//! self-destruct target to delete only after the transaction has committed.

use vstd::prelude::*;
use crate::bytecode::{Bytecode, MAX_CODE_SIZE};
use crate::interpreter::{
    execute, init_mstate, spec_run, ExecStatus, FaultKind, MState, Outcome, RunResult,
};
use crate::state::ExecutionState;
use crate::storage::{
    block_ref, empty_contents, hamt_fresh, hamt_root, store_get, store_put, StateStore,
    StorageHamt,
};
use crate::system::System;
use crate::word::U256;

verus! {

/// The step budget one invocation gets; exhausting it is a fault.
pub const EXEC_STEP_LIMIT: u64 = 1048576;

/// The errors the actor entry points report: a malformed argument, rejected
/// before any execution; unreadable or malformed durable state; a failed
/// host storage operation; a failed execution; or a method number that maps
/// to no entry point.
#[derive(Clone, Copy, Debug, PartialEq, Eq, Structural)]
pub enum ActorError {
    IllegalArgument,
    IllegalState,
    StorageFailure,
    Unspecified,
    UnhandledMessage,
}

/// The durable state of one contract: the content address of its installed
/// code and the root content address of its storage trie. The storage root
/// is the only field that ever changes, and only when an invocation commits.
pub struct ContractState {
    pub bytecode: Vec<u8>,
    pub contract_state: Vec<u8>,
}

/// The arguments of a construct call.
pub struct ConstructorParams {
    pub bytecode: Vec<u8>,
    pub input_data: Vec<u8>,
}

/// The arguments of an invoke call.
pub struct InvokeParams {
    pub input_data: Vec<u8>,
}

/// The two exported methods of the contract actor.
#[derive(Clone, Copy, Debug, PartialEq, Eq, Structural)]
pub enum Method {
    Constructor,
    InvokeContract,
}

impl Method {
    /// The method for a call's method number, if any.
    pub fn from_num(n: u64) -> (r: Option<Method>)
        ensures
            r == (if n == 1 {
                Some(Method::Constructor)
            } else if n == 2 {
                Some(Method::InvokeContract)
            } else {
                None
            }),
    {
        if n == 1 {
            Some(Method::Constructor)
        } else if n == 2 {
            Some(Method::InvokeContract)
        } else {
            None
        }
    }
}

/// What one invocation of a contract produced: the interpreter's output
/// bytes, whether the run reverted, and a recorded self-destruct target —
/// returned instead of acted on, so that the caller deletes the actor only
/// after the transaction has definitively closed.
pub struct InvokeResult {
    pub output_data: Vec<u8>,
    pub reverted: bool,
    pub selfdestruct: Option<U256>,
}

/// The run a construct call performs: the supplied code over the supplied
/// input, from an empty stack, empty memory and an empty storage trie.
pub open spec fn construct_run(
    code: Seq<u8>,
    input: Seq<u8>,
    self_id: u64,
    caller_id: u64,
) -> RunResult {
    spec_run(
        code,
        input,
        self_id,
        caller_id,
        MState { pc: 0, stack: Seq::empty(), mem: Seq::empty(), store: empty_contents() },
        EXEC_STEP_LIMIT as nat,
    )
}

/// The contract actor.
pub struct Actor;

impl Actor {
    /// Construct: validates the raw code, runs it with the constructor input
    /// against a fresh, empty storage trie, and requires a successful,
    /// non-reverted run with non-empty output; the output bytes are the code
    /// installed for future invocations. On success the storage trie is
    /// flushed and the new contract state is returned for the host to
    /// persist; on any failure an error is returned and no state exists.
    pub fn constructor(
        store: &StateStore,
        params: ConstructorParams,
        self_id: u64,
        caller_id: u64,
    ) -> (r: Result<ContractState, ActorError>)
        ensures
            (!(0 < params.bytecode@.len() <= MAX_CODE_SIZE) ==> r == Err::<
                ContractState,
                ActorError,
            >(ActorError::IllegalArgument)),
            r matches Err(e) ==> (e == ActorError::IllegalArgument ==> !(0
                < params.bytecode@.len() <= MAX_CODE_SIZE)),
            r matches Ok(st) ==> ({
                let rr = construct_run(params.bytecode@, params.input_data@, self_id, caller_id);
                &&& rr.status == ExecStatus::Success
                &&& rr.output.len() > 0
                &&& st.bytecode@ == block_ref(rr.output)
                &&& st.contract_state@ == hamt_root(rr.store)
            }),
            ({
                let rr = construct_run(params.bytecode@, params.input_data@, self_id, caller_id);
                (0 < params.bytecode@.len() <= MAX_CODE_SIZE && !(rr.status == ExecStatus::Success
                    && rr.output.len() > 0)) ==> (r == Err::<ContractState, ActorError>(
                    ActorError::Unspecified,
                ) || r == Err::<ContractState, ActorError>(ActorError::StorageFailure))
            }),
            ({
                let rr = construct_run(params.bytecode@, params.input_data@, self_id, caller_id);
                (0 < params.bytecode@.len() <= MAX_CODE_SIZE && rr.status == ExecStatus::Success
                    && rr.output.len() > 0) ==> (r is Ok || r == Err::<ContractState, ActorError>(
                    ActorError::StorageFailure,
                ))
            }),
            (r == Err::<ContractState, ActorError>(ActorError::Unspecified) ==> ({
                let rr = construct_run(params.bytecode@, params.input_data@, self_id, caller_id);
                0 < params.bytecode@.len() <= MAX_CODE_SIZE && !(rr.status == ExecStatus::Success
                    && rr.output.len() > 0)
            })),
    {
        if params.bytecode.len() == 0 || params.bytecode.len() > MAX_CODE_SIZE {
            return Err(ActorError::IllegalArgument);
        }
        let bc = match Bytecode::new(params.bytecode) {
            Ok(b) => b,
            Err(_) => {
                return Err(ActorError::IllegalArgument);
            },
        };
        let hamt = match StorageHamt::new_empty(store) {
            Ok(h) => h,
            Err(_) => {
                return Err(ActorError::StorageFailure);
            },
        };
        let mut sys = System::new(hamt, self_id, caller_id);
        let mut est = ExecutionState::new(params.input_data);
        proof {
            assert(est.stack@ =~= Seq::<U256>::empty());
            assert(est.memory@ =~= Seq::<u8>::empty());
            assert(init_mstate(est, sys) == (MState {
                pc: 0,
                stack: Seq::<U256>::empty(),
                mem: Seq::<u8>::empty(),
                store: empty_contents(),
            }));
        }
        let outcome = execute(&bc, &mut est, &mut sys, EXEC_STEP_LIMIT);
        match outcome.status {
            ExecStatus::Success => {
                if outcome.output.len() == 0 {
                    return Err(ActorError::Unspecified);
                }
                let root = match sys.flush_state() {
                    Ok(rt) => rt,
                    Err(_) => {
                        return Err(ActorError::StorageFailure);
                    },
                };
                let code_ref = match store_put(store, &outcome.output) {
                    Ok(c) => c,
                    Err(_) => {
                        return Err(ActorError::StorageFailure);
                    },
                };
                Ok(ContractState { bytecode: code_ref, contract_state: root })
            },
            ExecStatus::Fault(FaultKind::StorageCorruption) => Err(ActorError::StorageFailure),
            _ => Err(ActorError::Unspecified),
        }
    }

    /// Invoke: loads the stored code and storage root, runs the interpreter
    /// with the caller-supplied input, and commits the new storage root only
    /// on a successful, non-reverted run. A revert returns its output to the
    /// caller and leaves the storage root exactly as it was; a fault or
    /// unreadable stored state fails the whole call and changes nothing. A
    /// recorded self-destruct target is returned only when the run
    /// committed, for the host to delete after the transaction has closed.
    pub fn invoke_contract(
        store: &StateStore,
        state: &mut ContractState,
        params: InvokeParams,
        self_id: u64,
        caller_id: u64,
    ) -> (r: Result<InvokeResult, ActorError>)
        ensures
            final(state).bytecode@ == old(state).bytecode@,
            r matches Err(_) ==> final(state).contract_state@ == old(state).contract_state@,
            r matches Ok(res) ==> (res.reverted ==> final(state).contract_state@ == old(
                state,
            ).contract_state@ && res.selfdestruct is None),
            r matches Ok(res) ==> (res.selfdestruct is Some ==> !res.reverted),
    {
        let code = match store_get(store, &state.bytecode) {
            Some(c) => c,
            None => {
                return Err(ActorError::IllegalState);
            },
        };
        let bc = match Bytecode::new(code) {
            Ok(b) => b,
            Err(_) => {
                return Err(ActorError::IllegalState);
            },
        };
        let hamt = match StorageHamt::load(&state.contract_state, store) {
            Ok(h) => h,
            Err(_) => {
                return Err(ActorError::IllegalState);
            },
        };
        let mut sys = System::new(hamt, self_id, caller_id);
        let mut est = ExecutionState::new(params.input_data);
        let outcome = execute(&bc, &mut est, &mut sys, EXEC_STEP_LIMIT);
        Self::settle_invocation(outcome, state, &mut sys)
    }

    /// Settles one finished run against the durable state: a fault fails the
    /// call and changes nothing; a revert returns the run's output with the
    /// root untouched; a successful run commits by flushing the trie into
    /// the storage root and returns the run's output and recorded
    /// self-destruct target. Only a failed flush stops a commit.
    pub fn settle_invocation(outcome: Outcome, state: &mut ContractState, sys: &mut System) -> (r:
        Result<InvokeResult, ActorError>)
        ensures
            final(state).bytecode@ == old(state).bytecode@,
            outcome.status matches ExecStatus::Fault(_) ==> r == Err::<InvokeResult, ActorError>(
                ActorError::Unspecified,
            ) && *final(state) == *old(state),
            outcome.status == ExecStatus::Revert ==> (r matches Ok(res) && res.output_data@
                == outcome.output@ && res.reverted && res.selfdestruct is None) && *final(state)
                == *old(state),
            outcome.status == ExecStatus::Success ==> ((r matches Ok(res) && res.output_data@
                == outcome.output@ && !res.reverted && res.selfdestruct == outcome.selfdestruct
                && final(sys).storage_view() == old(sys).storage_view() && (hamt_fresh(
                old(sys).storage,
            ) ==> final(state).contract_state@ == hamt_root(old(sys).storage_view()))) || (r
                == Err::<InvokeResult, ActorError>(ActorError::StorageFailure) && *final(state)
                == *old(state))),
            r matches Err(_) ==> *final(state) == *old(state),
    {
        match outcome.status {
            ExecStatus::Success => {
                let root = match sys.flush_state() {
                    Ok(rt) => rt,
                    Err(_) => {
                        return Err(ActorError::StorageFailure);
                    },
                };
                state.contract_state = root;
                Ok(
                    InvokeResult {
                        output_data: outcome.output,
                        reverted: false,
                        selfdestruct: outcome.selfdestruct,
                    },
                )
            },
            ExecStatus::Revert => Ok(
                InvokeResult { output_data: outcome.output, reverted: true, selfdestruct: None },
            ),
            ExecStatus::Fault(_) => Err(ActorError::Unspecified),
        }
    }
}

} // verus!
