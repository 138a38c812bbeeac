//! The interpreter: executes an analyzed program against one execution state
//! and the system abstraction layer until it halts.
//!
//! The semantics are given first as a small-step machine over mathematical
//! state (`spec_step`, `spec_run`); the executable interpreter is proved to
//! produce exactly the run the machine prescribes, unless a storage access
//! fails, in which case it halts with a storage fault.

use vstd::prelude::*;
use crate::buffer::{
    be_bytes, padded_slice, read_padded, read_padded_at, read_word_padded, word_from_be_bytes,
    word_of_be, write_bytes_exec, write_seq, write_word, write_word_exec,
};
use crate::bytecode::{
    is_push, lemma_push_data_not_jumpdest, push_data_len, scan_positions, spec_is_jumpdest,
    Bytecode, MAX_CODE_SIZE,
};
use crate::state::ExecutionState;
use crate::storage::hamt_fresh;
use crate::system::{storage_word, System};
use crate::word::{spec_add, spec_and, spec_mul, spec_not, spec_or, spec_sub, spec_xor, U256};

verus! {

/// Operand stack depth limit.
pub const STACK_LIMIT: usize = 1024;

/// Linear memory limit in bytes; an access past it is resource exhaustion.
pub const MEMORY_LIMIT: u64 = 65536;

/// An internal interpreter halt: the whole invocation fails and no partial
/// effects survive.
#[derive(Clone, Copy, Debug, PartialEq, Eq, Structural)]
pub enum FaultKind {
    StackUnderflow,
    StackOverflow,
    BadJumpDestination,
    UnknownOpcode,
    MemoryLimitExceeded,
    StepLimitExceeded,
    StorageCorruption,
}

/// How one invocation halted. There is no suspended state: a run ends in
/// exactly one of these.
#[derive(Clone, Copy, Debug, PartialEq, Eq, Structural)]
pub enum ExecStatus {
    Success,
    Revert,
    Fault(FaultKind),
}

/// What one invocation produced: the halt status, the returned bytes, and a
/// recorded self-destruct target, if any. The interpreter deletes nothing
/// itself; the target is handed out for the frontend to act on after the
/// enclosing call has committed.
pub struct Outcome {
    pub status: ExecStatus,
    pub output: Vec<u8>,
    pub selfdestruct: Option<U256>,
}

/// The mathematical state of the machine between steps.
#[verifier::ext_equal]
pub ghost struct MState {
    pub pc: nat,
    pub stack: Seq<U256>,
    pub mem: Seq<u8>,
    pub store: Map<Seq<u8>, Seq<u8>>,
}

/// The mathematical result of a finished run.
#[verifier::ext_equal]
pub ghost struct RunResult {
    pub status: ExecStatus,
    pub output: Seq<u8>,
    pub selfdestruct: Option<U256>,
    pub store: Map<Seq<u8>, Seq<u8>>,
}

/// One machine step either continues or halts.
pub ghost enum StepResult {
    Next(MState),
    Done(RunResult),
}

pub open spec fn zero_word() -> U256 {
    U256 { w0: 0, w1: 0, w2: 0, w3: 0 }
}

pub open spec fn bool_word(b: bool) -> U256 {
    if b {
        U256 { w0: 1, w1: 0, w2: 0, w3: 0 }
    } else {
        zero_word()
    }
}

/// A 64-bit quantity (an actor identity, a length, a program counter) as a
/// machine word.
pub open spec fn u64_word(x: u64) -> U256 {
    U256 { w0: x, w1: 0, w2: 0, w3: 0 }
}

/// The 32 bytes a push instruction at `pc` reads: leading zeroes, then its
/// immediate bytes, missing bytes past the end of the code reading as zero.
pub open spec fn push_bytes(code: Seq<u8>, pc: nat, n: nat) -> Seq<u8> {
    Seq::new(
        32,
        |i: int|
            if i < 32 - n {
                0u8
            } else {
                let j = pc + 1 + (i - (32 - n));
                if j < code.len() {
                    code[j as int]
                } else {
                    0u8
                }
            },
    )
}

/// The word pushed by a push instruction at `pc`.
pub open spec fn push_value(code: Seq<u8>, pc: nat, n: nat) -> U256 {
    word_of_be(push_bytes(code, pc, n))
}

pub open spec fn halted(
    status: ExecStatus,
    output: Seq<u8>,
    selfdestruct: Option<U256>,
    store: Map<Seq<u8>, Seq<u8>>,
) -> StepResult {
    StepResult::Done(RunResult { status, output, selfdestruct, store })
}

pub open spec fn faulted(k: FaultKind, store: Map<Seq<u8>, Seq<u8>>) -> StepResult {
    halted(ExecStatus::Fault(k), Seq::empty(), None, store)
}

/// Continue past a two-operand instruction that replaces the top two words
/// with one.
pub open spec fn step_binop(s: MState, w: U256) -> StepResult {
    StepResult::Next(
        MState { pc: s.pc + 1, stack: s.stack.drop_last().drop_last().push(w), ..s },
    )
}

/// Continue past a one-operand instruction that replaces the top word.
pub open spec fn step_unop(s: MState, w: U256) -> StepResult {
    StepResult::Next(MState { pc: s.pc + 1, stack: s.stack.drop_last().push(w), ..s })
}

/// Continue past an instruction that pushes one word.
pub open spec fn step_grow(s: MState, w: U256) -> StepResult {
    StepResult::Next(MState { pc: s.pc + 1, stack: s.stack.push(w), ..s })
}

/// One step of the machine at state `s`.
#[verifier::opaque]
pub open spec fn spec_step(
    code: Seq<u8>,
    input: Seq<u8>,
    self_id: u64,
    caller_id: u64,
    s: MState,
) -> StepResult {
    if s.pc >= code.len() {
        halted(ExecStatus::Success, Seq::empty(), None, s.store)
    } else {
        let op = code[s.pc as int];
        let n = s.stack.len() as int;
        let a = s.stack[n - 1];
        let b = s.stack[n - 2];
        if op == 0x00 {  // STOP
            halted(ExecStatus::Success, Seq::empty(), None, s.store)
        } else if op == 0x01 {  // ADD
            if n < 2 {
                faulted(FaultKind::StackUnderflow, s.store)
            } else {
                step_binop(s, spec_add(a, b))
            }
        } else if op == 0x02 {  // MUL
            if n < 2 {
                faulted(FaultKind::StackUnderflow, s.store)
            } else {
                step_binop(s, spec_mul(a, b))
            }
        } else if op == 0x03 {  // SUB
            if n < 2 {
                faulted(FaultKind::StackUnderflow, s.store)
            } else {
                step_binop(s, spec_sub(a, b))
            }
        } else if op == 0x10 {  // LT
            if n < 2 {
                faulted(FaultKind::StackUnderflow, s.store)
            } else {
                step_binop(s, bool_word(a.as_nat() < b.as_nat()))
            }
        } else if op == 0x11 {  // GT
            if n < 2 {
                faulted(FaultKind::StackUnderflow, s.store)
            } else {
                step_binop(s, bool_word(a.as_nat() > b.as_nat()))
            }
        } else if op == 0x14 {  // EQ
            if n < 2 {
                faulted(FaultKind::StackUnderflow, s.store)
            } else {
                step_binop(s, bool_word(a.as_nat() == b.as_nat()))
            }
        } else if op == 0x15 {  // ISZERO
            if n < 1 {
                faulted(FaultKind::StackUnderflow, s.store)
            } else {
                step_unop(s, bool_word(a.as_nat() == 0))
            }
        } else if op == 0x16 {  // AND
            if n < 2 {
                faulted(FaultKind::StackUnderflow, s.store)
            } else {
                step_binop(s, spec_and(a, b))
            }
        } else if op == 0x17 {  // OR
            if n < 2 {
                faulted(FaultKind::StackUnderflow, s.store)
            } else {
                step_binop(s, spec_or(a, b))
            }
        } else if op == 0x18 {  // XOR
            if n < 2 {
                faulted(FaultKind::StackUnderflow, s.store)
            } else {
                step_binop(s, spec_xor(a, b))
            }
        } else if op == 0x19 {  // NOT
            if n < 1 {
                faulted(FaultKind::StackUnderflow, s.store)
            } else {
                step_unop(s, spec_not(a))
            }
        } else if op == 0x30 {  // ADDRESS
            if n >= STACK_LIMIT {
                faulted(FaultKind::StackOverflow, s.store)
            } else {
                step_grow(s, u64_word(self_id))
            }
        } else if op == 0x33 {  // CALLER
            if n >= STACK_LIMIT {
                faulted(FaultKind::StackOverflow, s.store)
            } else {
                step_grow(s, u64_word(caller_id))
            }
        } else if op == 0x35 {  // CALLDATALOAD
            if n < 1 {
                faulted(FaultKind::StackUnderflow, s.store)
            } else {
                step_unop(s, word_of_be(padded_slice(input, a.as_nat() as int, 32)))
            }
        } else if op == 0x36 {  // CALLDATASIZE
            if n >= STACK_LIMIT {
                faulted(FaultKind::StackOverflow, s.store)
            } else {
                step_grow(s, u64_word(input.len() as u64))
            }
        } else if op == 0x38 {  // CODESIZE
            if n >= STACK_LIMIT {
                faulted(FaultKind::StackOverflow, s.store)
            } else {
                step_grow(s, u64_word(code.len() as u64))
            }
        } else if op == 0x39 {  // CODECOPY
            if n < 3 {
                faulted(FaultKind::StackUnderflow, s.store)
            } else if a.as_nat() + s.stack[n - 3].as_nat() > MEMORY_LIMIT {
                faulted(FaultKind::MemoryLimitExceeded, s.store)
            } else {
                StepResult::Next(
                    MState {
                        pc: s.pc + 1,
                        stack: s.stack.drop_last().drop_last().drop_last(),
                        mem: write_seq(
                            s.mem,
                            a.as_nat() as int,
                            padded_slice(code, b.as_nat() as int, s.stack[n - 3].as_nat() as int),
                        ),
                        ..s
                    },
                )
            }
        } else if op == 0x50 {  // POP
            if n < 1 {
                faulted(FaultKind::StackUnderflow, s.store)
            } else {
                StepResult::Next(MState { pc: s.pc + 1, stack: s.stack.drop_last(), ..s })
            }
        } else if op == 0x51 {  // MLOAD
            if n < 1 {
                faulted(FaultKind::StackUnderflow, s.store)
            } else if a.as_nat() + 32 > MEMORY_LIMIT {
                faulted(FaultKind::MemoryLimitExceeded, s.store)
            } else {
                step_unop(s, word_of_be(padded_slice(s.mem, a.as_nat() as int, 32)))
            }
        } else if op == 0x52 {  // MSTORE
            if n < 2 {
                faulted(FaultKind::StackUnderflow, s.store)
            } else if a.as_nat() + 32 > MEMORY_LIMIT {
                faulted(FaultKind::MemoryLimitExceeded, s.store)
            } else {
                StepResult::Next(
                    MState {
                        pc: s.pc + 1,
                        stack: s.stack.drop_last().drop_last(),
                        mem: write_word(s.mem, a.as_nat() as int, b),
                        ..s
                    },
                )
            }
        } else if op == 0x54 {  // SLOAD
            if n < 1 {
                faulted(FaultKind::StackUnderflow, s.store)
            } else {
                step_unop(s, storage_word(s.store, be_bytes(a)))
            }
        } else if op == 0x55 {  // SSTORE
            if n < 2 {
                faulted(FaultKind::StackUnderflow, s.store)
            } else {
                StepResult::Next(
                    MState {
                        pc: s.pc + 1,
                        stack: s.stack.drop_last().drop_last(),
                        store: s.store.insert(be_bytes(a), be_bytes(b)),
                        ..s
                    },
                )
            }
        } else if op == 0x56 {  // JUMP
            if n < 1 {
                faulted(FaultKind::StackUnderflow, s.store)
            } else if a.as_nat() < code.len() && spec_is_jumpdest(code, a.as_nat()) {
                StepResult::Next(MState { pc: a.as_nat(), stack: s.stack.drop_last(), ..s })
            } else {
                faulted(FaultKind::BadJumpDestination, s.store)
            }
        } else if op == 0x57 {  // JUMPI
            if n < 2 {
                faulted(FaultKind::StackUnderflow, s.store)
            } else if b.as_nat() == 0 {
                StepResult::Next(
                    MState { pc: s.pc + 1, stack: s.stack.drop_last().drop_last(), ..s },
                )
            } else if a.as_nat() < code.len() && spec_is_jumpdest(code, a.as_nat()) {
                StepResult::Next(
                    MState { pc: a.as_nat(), stack: s.stack.drop_last().drop_last(), ..s },
                )
            } else {
                faulted(FaultKind::BadJumpDestination, s.store)
            }
        } else if op == 0x58 {  // PC
            if n >= STACK_LIMIT {
                faulted(FaultKind::StackOverflow, s.store)
            } else {
                step_grow(s, u64_word(s.pc as u64))
            }
        } else if op == 0x5b {  // JUMPDEST
            StepResult::Next(MState { pc: s.pc + 1, ..s })
        } else if 0x60 <= op && op <= 0x7f {  // PUSH1..PUSH32
            if n >= STACK_LIMIT {
                faulted(FaultKind::StackOverflow, s.store)
            } else {
                StepResult::Next(
                    MState {
                        pc: s.pc + 1 + push_data_len(op),
                        stack: s.stack.push(push_value(code, s.pc, push_data_len(op))),
                        ..s
                    },
                )
            }
        } else if 0x80 <= op && op <= 0x8f {  // DUP1..DUP16
            let d = (op - 0x7f) as int;
            if n < d {
                faulted(FaultKind::StackUnderflow, s.store)
            } else if n >= STACK_LIMIT {
                faulted(FaultKind::StackOverflow, s.store)
            } else {
                step_grow(s, s.stack[n - d])
            }
        } else if 0x90 <= op && op <= 0x9f {  // SWAP1..SWAP16
            let d = (op - 0x8f) as int;
            if n < d + 1 {
                faulted(FaultKind::StackUnderflow, s.store)
            } else {
                StepResult::Next(
                    MState {
                        pc: s.pc + 1,
                        stack: s.stack.update(n - 1, s.stack[n - 1 - d]).update(
                            n - 1 - d,
                            s.stack[n - 1],
                        ),
                        ..s
                    },
                )
            }
        } else if op == 0xf3 {  // RETURN
            if n < 2 {
                faulted(FaultKind::StackUnderflow, s.store)
            } else if a.as_nat() + b.as_nat() > MEMORY_LIMIT {
                faulted(FaultKind::MemoryLimitExceeded, s.store)
            } else {
                halted(
                    ExecStatus::Success,
                    padded_slice(s.mem, a.as_nat() as int, b.as_nat() as int),
                    None,
                    s.store,
                )
            }
        } else if op == 0xfd {  // REVERT
            if n < 2 {
                faulted(FaultKind::StackUnderflow, s.store)
            } else if a.as_nat() + b.as_nat() > MEMORY_LIMIT {
                faulted(FaultKind::MemoryLimitExceeded, s.store)
            } else {
                halted(
                    ExecStatus::Revert,
                    padded_slice(s.mem, a.as_nat() as int, b.as_nat() as int),
                    None,
                    s.store,
                )
            }
        } else if op == 0xff {  // SELFDESTRUCT
            if n < 1 {
                faulted(FaultKind::StackUnderflow, s.store)
            } else {
                halted(ExecStatus::Success, Seq::empty(), Some(a), s.store)
            }
        } else {
            faulted(FaultKind::UnknownOpcode, s.store)
        }
    }
}

/// The machine run to its halt, within a step budget; exhausting the budget
/// is a resource-exhaustion fault.
#[verifier::opaque]
pub open spec fn spec_run(
    code: Seq<u8>,
    input: Seq<u8>,
    self_id: u64,
    caller_id: u64,
    s: MState,
    fuel: nat,
) -> RunResult
    decreases fuel,
{
    if fuel == 0 {
        RunResult {
            status: ExecStatus::Fault(FaultKind::StepLimitExceeded),
            output: Seq::empty(),
            selfdestruct: None,
            store: s.store,
        }
    } else {
        match spec_step(code, input, self_id, caller_id, s) {
            StepResult::Next(s2) => spec_run(code, input, self_id, caller_id, s2, (fuel - 1) as nat),
            StepResult::Done(r) => r,
        }
    }
}

/// Whether the machine state stands at a storage instruction with enough
/// operands: the one place where an outside storage access can fail.
pub open spec fn at_storage_op(code: Seq<u8>, s: MState) -> bool {
    s.pc < code.len() && ((code[s.pc as int] == 0x54 && s.stack.len() >= 1) || (code[s.pc as int]
        == 0x55 && s.stack.len() >= 2))
}

/// Whether the machine's prescribed run, within the step budget, ever
/// reaches a storage instruction with enough operands.
#[verifier::opaque]
pub open spec fn reaches_storage_op(
    code: Seq<u8>,
    input: Seq<u8>,
    self_id: u64,
    caller_id: u64,
    s: MState,
    fuel: nat,
) -> bool
    decreases fuel,
{
    if fuel == 0 {
        false
    } else if at_storage_op(code, s) {
        true
    } else {
        match spec_step(code, input, self_id, caller_id, s) {
            StepResult::Next(s2) => reaches_storage_op(
                code,
                input,
                self_id,
                caller_id,
                s2,
                (fuel - 1) as nat,
            ),
            StepResult::Done(_) => false,
        }
    }
}

/// A state at a storage instruction reaches one.
proof fn lemma_reaches_here(
    code: Seq<u8>,
    input: Seq<u8>,
    self_id: u64,
    caller_id: u64,
    s: MState,
    fuel: nat,
)
    requires
        fuel > 0,
        at_storage_op(code, s),
    ensures
        reaches_storage_op(code, input, self_id, caller_id, s, fuel),
{
    reveal(reaches_storage_op);
}

/// A state whose successor reaches a storage instruction reaches one too.
proof fn lemma_reaches_step(
    code: Seq<u8>,
    input: Seq<u8>,
    self_id: u64,
    caller_id: u64,
    s: MState,
    s2: MState,
    fuel: nat,
)
    requires
        fuel > 0,
        spec_step(code, input, self_id, caller_id, s) == StepResult::Next(s2),
        reaches_storage_op(code, input, self_id, caller_id, s2, (fuel - 1) as nat),
    ensures
        reaches_storage_op(code, input, self_id, caller_id, s, fuel),
{
    reveal(reaches_storage_op);
}

/// Unfolding: a budgeted run takes the machine's next step.
proof fn lemma_run_step(
    code: Seq<u8>,
    input: Seq<u8>,
    self_id: u64,
    caller_id: u64,
    s: MState,
    s2: MState,
    fuel: nat,
)
    requires
        fuel > 0,
        spec_step(code, input, self_id, caller_id, s) == StepResult::Next(s2),
    ensures
        spec_run(code, input, self_id, caller_id, s, fuel) == spec_run(
            code,
            input,
            self_id,
            caller_id,
            s2,
            (fuel - 1) as nat,
        ),
{
    reveal(spec_run);
}

/// Unfolding: a budgeted run ends where the machine halts.
proof fn lemma_run_done(
    code: Seq<u8>,
    input: Seq<u8>,
    self_id: u64,
    caller_id: u64,
    s: MState,
    fuel: nat,
    r: RunResult,
)
    requires
        fuel > 0,
        spec_step(code, input, self_id, caller_id, s) == StepResult::Done(r),
    ensures
        spec_run(code, input, self_id, caller_id, s, fuel) == r,
{
    reveal(spec_run);
}

/// Replaces the top word of the stack.
fn replace_top(stack: &mut Vec<U256>, w: U256)
    requires
        old(stack)@.len() >= 1,
    ensures
        final(stack)@ == old(stack)@.drop_last().push(w),
{
    let n = stack.len();
    stack.set(n - 1, w);
    proof {
        assert(stack@ =~= old(stack)@.drop_last().push(w));
    }
}

/// Replaces the top two words of the stack with one.
fn replace_top2(stack: &mut Vec<U256>, w: U256)
    requires
        old(stack)@.len() >= 2,
    ensures
        final(stack)@ == old(stack)@.drop_last().drop_last().push(w),
{
    let n = stack.len();
    stack.truncate(n - 1);
    stack.set(n - 2, w);
    proof {
        assert(stack@ =~= old(stack)@.drop_last().drop_last().push(w));
    }
}

/// The machine state that an execution state, a system layer and a program
/// counter stand for.
pub open spec fn mstate_of(pc: nat, st: ExecutionState, sys: System) -> MState {
    MState { pc, stack: st.stack@, mem: st.memory@, store: sys.storage_view() }
}

/// The machine state at call entry.
pub open spec fn init_mstate(st: ExecutionState, sys: System) -> MState {
    mstate_of(0, st, sys)
}

/// Whether an outcome and final storage contents match a prescribed run
/// result.
pub open spec fn matches_run(r: Outcome, store: Map<Seq<u8>, Seq<u8>>, rr: RunResult) -> bool {
    &&& r.status == rr.status
    &&& r.output@ == rr.output
    &&& r.selfdestruct == rr.selfdestruct
    &&& store == rr.store
}

/// A jump whose target lies strictly inside the immediate data of a push
/// instruction reached at an instruction boundary halts with a bad-jump
/// fault: the loader's analysis rejects such a target.
pub proof fn lemma_jump_into_push_data_faults(
    code: Seq<u8>,
    input: Seq<u8>,
    self_id: u64,
    caller_id: u64,
    s: MState,
    p: nat,
)
    requires
        s.pc < code.len(),
        code[s.pc as int] == 0x56,
        s.stack.len() >= 1,
        scan_positions(code, 0).contains(p),
        is_push(code[p as int]),
        p < s.stack.last().as_nat() <= p + push_data_len(code[p as int]),
        s.stack.last().as_nat() < code.len(),
    ensures
        spec_step(code, input, self_id, caller_id, s) == faulted(
            FaultKind::BadJumpDestination,
            s.store,
        ),
{
    lemma_push_data_not_jumpdest(code, p, s.stack.last().as_nat());
    reveal(spec_step);
}

/// Executes the single instruction under the program counter: either the
/// machine steps (the state and counter advance exactly as `spec_step`
/// prescribes and nothing is returned), or it halts and the outcome is
/// returned. A failed storage access halts with a storage-corruption fault
/// instead.
#[verifier::rlimit(100)]
fn step_once(bytecode: &Bytecode, st: &mut ExecutionState, sys: &mut System, pc: &mut usize) -> (r:
    Option<Outcome>)
    requires
        bytecode.wf(),
        old(st).stack@.len() <= STACK_LIMIT,
        *old(pc) <= MAX_CODE_SIZE + 33,
    ensures
        final(st).input_data@ == old(st).input_data@,
        final(sys).self_id == old(sys).self_id,
        final(sys).caller_id == old(sys).caller_id,
        final(st).stack@.len() <= STACK_LIMIT,
        *final(pc) <= MAX_CODE_SIZE + 33,
        ({
            let c = bytecode.code@;
            let inp = old(st).input_data@;
            let sid = old(sys).self_id;
            let cid = old(sys).caller_id;
            let prev = mstate_of(*old(pc) as nat, *old(st), *old(sys));
            match r {
                None => spec_step(c, inp, sid, cid, prev) == StepResult::Next(
                    mstate_of(*final(pc) as nat, *final(st), *final(sys)),
                ) && (hamt_fresh(old(sys).storage) ==> hamt_fresh(final(sys).storage)),
                Some(out) => (spec_step(c, inp, sid, cid, prev) == StepResult::Done(
                    (RunResult {
                        status: out.status,
                        output: out.output@,
                        selfdestruct: out.selfdestruct,
                        store: final(sys).storage_view(),
                    }),
                ) && (hamt_fresh(old(sys).storage) ==> hamt_fresh(final(sys).storage)) || out.status
                    == ExecStatus::Fault(FaultKind::StorageCorruption) && out.selfdestruct is None
                    && at_storage_op(c, prev)),
            }
        }),
{
    let ghost c = bytecode.code@;
    let ghost inp = old(st).input_data@;
    let ghost sid = old(sys).self_id;
    let ghost cid = old(sys).caller_id;
    let ghost prev = mstate_of(*old(pc) as nat, *old(st), *old(sys));
    let code_len: usize = bytecode.code.len();
    let pc0: usize = *pc;
    if pc0 >= code_len {
        proof {
            reveal(spec_step);
            assert(spec_step(c, inp, sid, cid, prev) == halted(
                ExecStatus::Success,
                Seq::empty(),
                None,
                prev.store,
            ));
        }
        return Some(Outcome { status: ExecStatus::Success, output: Vec::new(), selfdestruct: None });
    }
    let op: u8 = bytecode.code[pc0];
    let n: usize = st.stack.len();
    if op == 0x00 {  // STOP
        proof {
            reveal(spec_step);
            assert(spec_step(c, inp, sid, cid, prev) == halted(
                ExecStatus::Success,
                Seq::empty(),
                None,
                prev.store,
            ));
        }
        return Some(Outcome { status: ExecStatus::Success, output: Vec::new(), selfdestruct: None });
    } else if op == 0x01 || op == 0x02 || op == 0x03 || op == 0x10 || op == 0x11 || op == 0x14
        || op == 0x16 || op == 0x17 || op == 0x18 {  // two-operand word instructions
        if n < 2 {
            proof {
                reveal(spec_step);
                assert(spec_step(c, inp, sid, cid, prev) == faulted(FaultKind::StackUnderflow, prev.store));
            }
            return Some(
                Outcome {
                    status: ExecStatus::Fault(FaultKind::StackUnderflow),
                    output: Vec::new(),
                    selfdestruct: None,
                },
            );
        }
        let a: U256 = st.stack[n - 1];
        let b: U256 = st.stack[n - 2];
        let w: U256 = if op == 0x01 {
            a.wrapping_add(b)
        } else if op == 0x02 {
            a.wrapping_mul(b)
        } else if op == 0x03 {
            a.wrapping_sub(b)
        } else if op == 0x10 {
            if a.lt(b) {
                U256::one()
            } else {
                U256::zero()
            }
        } else if op == 0x11 {
            if b.lt(a) {
                U256::one()
            } else {
                U256::zero()
            }
        } else if op == 0x14 {
            proof {
                if a.as_nat() == b.as_nat() {
                    crate::word::lemma_as_nat_injective(a, b);
                }
            }
            if a == b {
                U256::one()
            } else {
                U256::zero()
            }
        } else if op == 0x16 {
            a.bit_and(b)
        } else if op == 0x17 {
            a.bit_or(b)
        } else {
            a.bit_xor(b)
        };
        replace_top2(&mut st.stack, w);
        *pc = pc0 + 1;
        proof {
            reveal(spec_step);
            assert(spec_step(c, inp, sid, cid, prev) == StepResult::Next(
                mstate_of(*pc as nat, *st, *sys),
            ));
        }
        return None;
    } else if op == 0x15 || op == 0x19 {  // one-operand word instructions
        if n < 1 {
            proof {
                reveal(spec_step);
                assert(spec_step(c, inp, sid, cid, prev) == faulted(FaultKind::StackUnderflow, prev.store));
            }
            return Some(
                Outcome {
                    status: ExecStatus::Fault(FaultKind::StackUnderflow),
                    output: Vec::new(),
                    selfdestruct: None,
                },
            );
        }
        let a: U256 = st.stack[n - 1];
        let w: U256 = if op == 0x15 {
            if a.is_zero() {
                U256::one()
            } else {
                U256::zero()
            }
        } else {
            a.bit_not()
        };
        replace_top(&mut st.stack, w);
        *pc = pc0 + 1;
        proof {
            reveal(spec_step);
            assert(spec_step(c, inp, sid, cid, prev) == StepResult::Next(
                mstate_of(*pc as nat, *st, *sys),
            ));
        }
        return None;
    } else if op == 0x30 || op == 0x33 || op == 0x36 || op == 0x38 || op == 0x58 {  // ADDRESS, CALLER, CALLDATASIZE, CODESIZE, PC
        if n >= STACK_LIMIT {
            proof {
                reveal(spec_step);
                assert(spec_step(c, inp, sid, cid, prev) == faulted(FaultKind::StackOverflow, prev.store));
            }
            return Some(
                Outcome {
                    status: ExecStatus::Fault(FaultKind::StackOverflow),
                    output: Vec::new(),
                    selfdestruct: None,
                },
            );
        }
        let w: U256 = if op == 0x30 {
            U256::from_u64(sys.self_id)
        } else if op == 0x33 {
            U256::from_u64(sys.caller_id)
        } else if op == 0x36 {
            U256::from_u64(st.input_data.len() as u64)
        } else if op == 0x38 {
            U256::from_u64(code_len as u64)
        } else {
            U256::from_u64(pc0 as u64)
        };
        st.stack.push(w);
        *pc = pc0 + 1;
        proof {
            reveal(spec_step);
            assert(spec_step(c, inp, sid, cid, prev) == StepResult::Next(
                mstate_of(*pc as nat, *st, *sys),
            ));
        }
        return None;
    } else if op == 0x35 {  // CALLDATALOAD
        if n < 1 {
            proof {
                reveal(spec_step);
                assert(spec_step(c, inp, sid, cid, prev) == faulted(FaultKind::StackUnderflow, prev.store));
            }
            return Some(
                Outcome {
                    status: ExecStatus::Fault(FaultKind::StackUnderflow),
                    output: Vec::new(),
                    selfdestruct: None,
                },
            );
        }
        let a: U256 = st.stack[n - 1];
        let w: U256 = read_word_padded(&st.input_data, a);
        replace_top(&mut st.stack, w);
        *pc = pc0 + 1;
        proof {
            reveal(spec_step);
            assert(spec_step(c, inp, sid, cid, prev) == StepResult::Next(
                mstate_of(*pc as nat, *st, *sys),
            ));
        }
        return None;
    } else if op == 0x39 {  // CODECOPY
        if n < 3 {
            proof {
                reveal(spec_step);
                assert(spec_step(c, inp, sid, cid, prev) == faulted(
                    FaultKind::StackUnderflow,
                    prev.store,
                ));
            }
            return Some(
                Outcome {
                    status: ExecStatus::Fault(FaultKind::StackUnderflow),
                    output: Vec::new(),
                    selfdestruct: None,
                },
            );
        }
        let a: U256 = st.stack[n - 1];
        let b: U256 = st.stack[n - 2];
        let e: U256 = st.stack[n - 3];
        if !(a.fits_u64(MEMORY_LIMIT) && e.fits_u64(MEMORY_LIMIT) && a.w0 + e.w0
            <= MEMORY_LIMIT) {
            proof {
                reveal(spec_step);
                assert(spec_step(c, inp, sid, cid, prev) == faulted(
                    FaultKind::MemoryLimitExceeded,
                    prev.store,
                ));
            }
            return Some(
                Outcome {
                    status: ExecStatus::Fault(FaultKind::MemoryLimitExceeded),
                    output: Vec::new(),
                    selfdestruct: None,
                },
            );
        }
        let data: Vec<u8> = read_padded_at(&bytecode.code, b, e.w0 as usize);
        write_bytes_exec(&mut st.memory, a.w0 as usize, &data);
        st.stack.truncate(n - 3);
        *pc = pc0 + 1;
        proof {
            reveal(spec_step);
            assert(st.stack@ =~= prev.stack.drop_last().drop_last().drop_last());
            assert(spec_step(c, inp, sid, cid, prev) == StepResult::Next(
                mstate_of(*pc as nat, *st, *sys),
            ));
        }
        return None;
    } else if op == 0x50 {  // POP
        if n < 1 {
            proof {
                reveal(spec_step);
                assert(spec_step(c, inp, sid, cid, prev) == faulted(FaultKind::StackUnderflow, prev.store));
            }
            return Some(
                Outcome {
                    status: ExecStatus::Fault(FaultKind::StackUnderflow),
                    output: Vec::new(),
                    selfdestruct: None,
                },
            );
        }
        st.stack.truncate(n - 1);
        *pc = pc0 + 1;
        proof {
            reveal(spec_step);
            assert(st.stack@ =~= prev.stack.drop_last());
            assert(spec_step(c, inp, sid, cid, prev) == StepResult::Next(
                mstate_of(*pc as nat, *st, *sys),
            ));
        }
        return None;
    } else if op == 0x51 {  // MLOAD
        if n < 1 {
            proof {
                reveal(spec_step);
                assert(spec_step(c, inp, sid, cid, prev) == faulted(FaultKind::StackUnderflow, prev.store));
            }
            return Some(
                Outcome {
                    status: ExecStatus::Fault(FaultKind::StackUnderflow),
                    output: Vec::new(),
                    selfdestruct: None,
                },
            );
        }
        let a: U256 = st.stack[n - 1];
        if !a.fits_u64(MEMORY_LIMIT - 32) {
            proof {
                reveal(spec_step);
                assert(spec_step(c, inp, sid, cid, prev) == faulted(FaultKind::MemoryLimitExceeded, prev.store));
            }
            return Some(
                Outcome {
                    status: ExecStatus::Fault(FaultKind::MemoryLimitExceeded),
                    output: Vec::new(),
                    selfdestruct: None,
                },
            );
        }
        let w: U256 = read_word_padded(&st.memory, a);
        replace_top(&mut st.stack, w);
        *pc = pc0 + 1;
        proof {
            reveal(spec_step);
            assert(spec_step(c, inp, sid, cid, prev) == StepResult::Next(
                mstate_of(*pc as nat, *st, *sys),
            ));
        }
        return None;
    } else if op == 0x52 {  // MSTORE
        if n < 2 {
            proof {
                reveal(spec_step);
                assert(spec_step(c, inp, sid, cid, prev) == faulted(FaultKind::StackUnderflow, prev.store));
            }
            return Some(
                Outcome {
                    status: ExecStatus::Fault(FaultKind::StackUnderflow),
                    output: Vec::new(),
                    selfdestruct: None,
                },
            );
        }
        let a: U256 = st.stack[n - 1];
        let b: U256 = st.stack[n - 2];
        if !a.fits_u64(MEMORY_LIMIT - 32) {
            proof {
                reveal(spec_step);
                assert(spec_step(c, inp, sid, cid, prev) == faulted(FaultKind::MemoryLimitExceeded, prev.store));
            }
            return Some(
                Outcome {
                    status: ExecStatus::Fault(FaultKind::MemoryLimitExceeded),
                    output: Vec::new(),
                    selfdestruct: None,
                },
            );
        }
        let off_us: usize = a.w0 as usize;
        proof {
            assert(off_us == a.as_nat());
        }
        write_word_exec(&mut st.memory, off_us, b);
        st.stack.truncate(n - 2);
        *pc = pc0 + 1;
        proof {
            reveal(spec_step);
            assert(st.stack@ =~= prev.stack.drop_last().drop_last());
            assert(spec_step(c, inp, sid, cid, prev) == StepResult::Next(
                mstate_of(*pc as nat, *st, *sys),
            ));
        }
        return None;
    } else if op == 0x54 {  // SLOAD
        if n < 1 {
            proof {
                reveal(spec_step);
                assert(spec_step(c, inp, sid, cid, prev) == faulted(FaultKind::StackUnderflow, prev.store));
            }
            return Some(
                Outcome {
                    status: ExecStatus::Fault(FaultKind::StackUnderflow),
                    output: Vec::new(),
                    selfdestruct: None,
                },
            );
        }
        let a: U256 = st.stack[n - 1];
        match sys.sload(a) {
            Ok(w) => {
                replace_top(&mut st.stack, w);
                *pc = pc0 + 1;
                proof {
                    reveal(spec_step);
                    assert(spec_step(c, inp, sid, cid, prev) == StepResult::Next(
                        mstate_of(*pc as nat, *st, *sys),
                    ));
                }
                return None;
            },
            Err(_) => {
                return Some(
                    Outcome {
                        status: ExecStatus::Fault(FaultKind::StorageCorruption),
                        output: Vec::new(),
                        selfdestruct: None,
                    },
                );
            },
        }
    } else if op == 0x55 {  // SSTORE
        if n < 2 {
            proof {
                reveal(spec_step);
                assert(spec_step(c, inp, sid, cid, prev) == faulted(FaultKind::StackUnderflow, prev.store));
            }
            return Some(
                Outcome {
                    status: ExecStatus::Fault(FaultKind::StackUnderflow),
                    output: Vec::new(),
                    selfdestruct: None,
                },
            );
        }
        let a: U256 = st.stack[n - 1];
        let b: U256 = st.stack[n - 2];
        match sys.sstore(a, b) {
            Ok(_) => {
                st.stack.truncate(n - 2);
                *pc = pc0 + 1;
                proof {
                    reveal(spec_step);
                    assert(st.stack@ =~= prev.stack.drop_last().drop_last());
                    assert(spec_step(c, inp, sid, cid, prev) == StepResult::Next(
                        mstate_of(*pc as nat, *st, *sys),
                    ));
                }
                return None;
            },
            Err(_) => {
                return Some(
                    Outcome {
                        status: ExecStatus::Fault(FaultKind::StorageCorruption),
                        output: Vec::new(),
                        selfdestruct: None,
                    },
                );
            },
        }
    } else if op == 0x56 {  // JUMP
        if n < 1 {
            proof {
                reveal(spec_step);
                assert(spec_step(c, inp, sid, cid, prev) == faulted(FaultKind::StackUnderflow, prev.store));
            }
            return Some(
                Outcome {
                    status: ExecStatus::Fault(FaultKind::StackUnderflow),
                    output: Vec::new(),
                    selfdestruct: None,
                },
            );
        }
        let a: U256 = st.stack[n - 1];
        if a.fits_u64((code_len - 1) as u64) {
            let t: usize = a.w0 as usize;
            proof {
                assert(t == a.as_nat());
            }
            if bytecode.jumpdests[t] {
                st.stack.truncate(n - 1);
                *pc = t;
                proof {
                    reveal(spec_step);
                    assert(st.stack@ =~= prev.stack.drop_last());
                    assert(spec_step(c, inp, sid, cid, prev) == StepResult::Next(
                        mstate_of(*pc as nat, *st, *sys),
                    ));
                }
                return None;
            } else {
                proof {
                    reveal(spec_step);
                    assert(spec_step(c, inp, sid, cid, prev) == faulted(FaultKind::BadJumpDestination, prev.store));
                }
                return Some(
                    Outcome {
                        status: ExecStatus::Fault(FaultKind::BadJumpDestination),
                        output: Vec::new(),
                        selfdestruct: None,
                    },
                );
            }
        } else {
            proof {
                reveal(spec_step);
                assert(spec_step(c, inp, sid, cid, prev) == faulted(FaultKind::BadJumpDestination, prev.store));
            }
            return Some(
                Outcome {
                    status: ExecStatus::Fault(FaultKind::BadJumpDestination),
                    output: Vec::new(),
                    selfdestruct: None,
                },
            );
        }
    } else if op == 0x57 {  // JUMPI
        if n < 2 {
            proof {
                reveal(spec_step);
                assert(spec_step(c, inp, sid, cid, prev) == faulted(FaultKind::StackUnderflow, prev.store));
            }
            return Some(
                Outcome {
                    status: ExecStatus::Fault(FaultKind::StackUnderflow),
                    output: Vec::new(),
                    selfdestruct: None,
                },
            );
        }
        let a: U256 = st.stack[n - 1];
        let b: U256 = st.stack[n - 2];
        if b.is_zero() {
            st.stack.truncate(n - 2);
            *pc = pc0 + 1;
            proof {
                reveal(spec_step);
                assert(st.stack@ =~= prev.stack.drop_last().drop_last());
                assert(spec_step(c, inp, sid, cid, prev) == StepResult::Next(
                    mstate_of(*pc as nat, *st, *sys),
                ));
            }
            return None;
        } else if a.fits_u64((code_len - 1) as u64) {
            let t: usize = a.w0 as usize;
            proof {
                assert(t == a.as_nat());
            }
            if bytecode.jumpdests[t] {
                st.stack.truncate(n - 2);
                *pc = t;
                proof {
                    reveal(spec_step);
                    assert(st.stack@ =~= prev.stack.drop_last().drop_last());
                    assert(spec_step(c, inp, sid, cid, prev) == StepResult::Next(
                        mstate_of(*pc as nat, *st, *sys),
                    ));
                }
                return None;
            } else {
                proof {
                    reveal(spec_step);
                    assert(spec_step(c, inp, sid, cid, prev) == faulted(FaultKind::BadJumpDestination, prev.store));
                }
                return Some(
                    Outcome {
                        status: ExecStatus::Fault(FaultKind::BadJumpDestination),
                        output: Vec::new(),
                        selfdestruct: None,
                    },
                );
            }
        } else {
            proof {
                reveal(spec_step);
                assert(spec_step(c, inp, sid, cid, prev) == faulted(FaultKind::BadJumpDestination, prev.store));
            }
            return Some(
                Outcome {
                    status: ExecStatus::Fault(FaultKind::BadJumpDestination),
                    output: Vec::new(),
                    selfdestruct: None,
                },
            );
        }
    } else if op == 0x5b {  // JUMPDEST
        *pc = pc0 + 1;
        proof {
            reveal(spec_step);
            assert(spec_step(c, inp, sid, cid, prev) == StepResult::Next(
                mstate_of(*pc as nat, *st, *sys),
            ));
        }
        return None;
    } else if 0x60 <= op && op <= 0x7f {  // PUSH1..PUSH32
        if n >= STACK_LIMIT {
            proof {
                reveal(spec_step);
                assert(spec_step(c, inp, sid, cid, prev) == faulted(FaultKind::StackOverflow, prev.store));
            }
            return Some(
                Outcome {
                    status: ExecStatus::Fault(FaultKind::StackOverflow),
                    output: Vec::new(),
                    selfdestruct: None,
                },
            );
        }
        let nimm: usize = (op - 0x5f) as usize;
        let mut v: Vec<u8> = Vec::new();
        let mut i: usize = 0;
        while i < 32
            invariant
                0 <= i <= 32,
                v@.len() == i,
                1 <= nimm <= 32,
                nimm == push_data_len(op),
                c == bytecode.code@,
                code_len == c.len(),
                pc0 < code_len <= MAX_CODE_SIZE,
                forall|k: int|
                    0 <= k < i ==> v@[k] == push_bytes(c, pc0 as nat, nimm as nat)[k],
            decreases 32 - i,
        {
            if i < 32 - nimm {
                v.push(0u8);
            } else {
                let j: usize = pc0 + 1 + (i - (32 - nimm));
                if j < code_len {
                    v.push(bytecode.code[j]);
                } else {
                    v.push(0u8);
                }
            }
            i = i + 1;
        }
        proof {
            assert(v@ =~= push_bytes(c, pc0 as nat, nimm as nat));
        }
        let w: U256 = word_from_be_bytes(&v);
        st.stack.push(w);
        *pc = pc0 + 1 + nimm;
        proof {
            reveal(spec_step);
            assert(spec_step(c, inp, sid, cid, prev) == StepResult::Next(
                mstate_of(*pc as nat, *st, *sys),
            ));
        }
        return None;
    } else if 0x80 <= op && op <= 0x8f {  // DUP1..DUP16
        let d: usize = (op - 0x7f) as usize;
        if n < d {
            proof {
                reveal(spec_step);
                assert(spec_step(c, inp, sid, cid, prev) == faulted(FaultKind::StackUnderflow, prev.store));
            }
            return Some(
                Outcome {
                    status: ExecStatus::Fault(FaultKind::StackUnderflow),
                    output: Vec::new(),
                    selfdestruct: None,
                },
            );
        }
        if n >= STACK_LIMIT {
            proof {
                reveal(spec_step);
                assert(spec_step(c, inp, sid, cid, prev) == faulted(FaultKind::StackOverflow, prev.store));
            }
            return Some(
                Outcome {
                    status: ExecStatus::Fault(FaultKind::StackOverflow),
                    output: Vec::new(),
                    selfdestruct: None,
                },
            );
        }
        let w: U256 = st.stack[n - d];
        st.stack.push(w);
        *pc = pc0 + 1;
        proof {
            reveal(spec_step);
            assert(spec_step(c, inp, sid, cid, prev) == StepResult::Next(
                mstate_of(*pc as nat, *st, *sys),
            ));
        }
        return None;
    } else if 0x90 <= op && op <= 0x9f {  // SWAP1..SWAP16
        let d: usize = (op - 0x8f) as usize;
        if n < d + 1 {
            proof {
                reveal(spec_step);
                assert(spec_step(c, inp, sid, cid, prev) == faulted(FaultKind::StackUnderflow, prev.store));
            }
            return Some(
                Outcome {
                    status: ExecStatus::Fault(FaultKind::StackUnderflow),
                    output: Vec::new(),
                    selfdestruct: None,
                },
            );
        }
        let wt: U256 = st.stack[n - 1];
        let wo: U256 = st.stack[n - 1 - d];
        st.stack.set(n - 1, wo);
        st.stack.set(n - 1 - d, wt);
        *pc = pc0 + 1;
        proof {
            reveal(spec_step);
            assert(st.stack@ =~= prev.stack.update(n - 1, prev.stack[n - 1 - d]).update(n - 1 - d, prev.stack[n - 1]));
            assert(spec_step(c, inp, sid, cid, prev) == StepResult::Next(
                mstate_of(*pc as nat, *st, *sys),
            ));
        }
        return None;
    } else if op == 0xf3 || op == 0xfd {  // RETURN, REVERT
        if n < 2 {
            proof {
                reveal(spec_step);
                assert(spec_step(c, inp, sid, cid, prev) == faulted(FaultKind::StackUnderflow, prev.store));
            }
            return Some(
                Outcome {
                    status: ExecStatus::Fault(FaultKind::StackUnderflow),
                    output: Vec::new(),
                    selfdestruct: None,
                },
            );
        }
        let a: U256 = st.stack[n - 1];
        let b: U256 = st.stack[n - 2];
        if !(a.fits_u64(MEMORY_LIMIT) && b.fits_u64(MEMORY_LIMIT) && a.w0 + b.w0
            <= MEMORY_LIMIT) {
            proof {
                reveal(spec_step);
                assert(spec_step(c, inp, sid, cid, prev) == faulted(FaultKind::MemoryLimitExceeded, prev.store));
            }
            return Some(
                Outcome {
                    status: ExecStatus::Fault(FaultKind::MemoryLimitExceeded),
                    output: Vec::new(),
                    selfdestruct: None,
                },
            );
        }
        let out: Vec<u8> = read_padded(&st.memory, a.w0 as usize, b.w0 as usize);
        let status: ExecStatus = if op == 0xf3 {
            ExecStatus::Success
        } else {
            ExecStatus::Revert
        };
        proof {
            reveal(spec_step);
            assert(spec_step(c, inp, sid, cid, prev) == halted(
                status,
                padded_slice(prev.mem, a.as_nat() as int, b.as_nat() as int),
                None,
                prev.store,
            ));
        }
        return Some(Outcome { status, output: out, selfdestruct: None });
    } else if op == 0xff {  // SELFDESTRUCT
        if n < 1 {
            proof {
                reveal(spec_step);
                assert(spec_step(c, inp, sid, cid, prev) == faulted(FaultKind::StackUnderflow, prev.store));
            }
            return Some(
                Outcome {
                    status: ExecStatus::Fault(FaultKind::StackUnderflow),
                    output: Vec::new(),
                    selfdestruct: None,
                },
            );
        }
        let a: U256 = st.stack[n - 1];
        proof {
            reveal(spec_step);
            assert(spec_step(c, inp, sid, cid, prev) == halted(
                ExecStatus::Success,
                Seq::empty(),
                Some(a),
                prev.store,
            ));
        }
        return Some(Outcome { status: ExecStatus::Success, output: Vec::new(), selfdestruct: Some(a) });
    } else {
        proof {
            reveal(spec_step);
            assert(spec_step(c, inp, sid, cid, prev) == faulted(FaultKind::UnknownOpcode, prev.store));
        }
        return Some(
            Outcome {
                status: ExecStatus::Fault(FaultKind::UnknownOpcode),
                output: Vec::new(),
                selfdestruct: None,
            },
        );
    }
}

/// A slot-read instruction over a key that the storage contents do not hold
/// steps by pushing the all-zero word: an unset key reads as zero, whatever
/// else the contents hold.
pub proof fn lemma_sload_of_unwritten_key(
    code: Seq<u8>,
    input: Seq<u8>,
    self_id: u64,
    caller_id: u64,
    s: MState,
)
    requires
        s.pc < code.len(),
        code[s.pc as int] == 0x54,
        s.stack.len() >= 1,
        !s.store.contains_key(be_bytes(s.stack.last())),
    ensures
        spec_step(code, input, self_id, caller_id, s) == step_unop(s, zero_word()),
{
    reveal(spec_step);
}

/// Executes the analyzed program against one execution state until it
/// halts: the state machine runs `Running -> {Success, Revert, Fault}` with
/// no suspended state. The outcome and the final storage contents are
/// exactly those of the specification machine's run, except that a failed
/// storage access halts the run with a storage-corruption fault.
pub fn execute(bytecode: &Bytecode, st: &mut ExecutionState, sys: &mut System, step_limit: u64) -> (r:
    Outcome)
    requires
        bytecode.wf(),
        old(st).stack@.len() <= STACK_LIMIT,
    ensures
        final(st).input_data@ == old(st).input_data@,
        final(sys).self_id == old(sys).self_id,
        final(sys).caller_id == old(sys).caller_id,
        matches_run(
            r,
            final(sys).storage_view(),
            spec_run(
                bytecode.code@,
                old(st).input_data@,
                old(sys).self_id,
                old(sys).caller_id,
                init_mstate(*old(st), *old(sys)),
                step_limit as nat,
            ),
        ) && (hamt_fresh(old(sys).storage) ==> hamt_fresh(final(sys).storage)) || r.status
            == ExecStatus::Fault(FaultKind::StorageCorruption) && r.selfdestruct is None
            && reaches_storage_op(
            bytecode.code@,
            old(st).input_data@,
            old(sys).self_id,
            old(sys).caller_id,
            init_mstate(*old(st), *old(sys)),
            step_limit as nat,
        ),
{
    let ghost c = bytecode.code@;
    let ghost inp = old(st).input_data@;
    let ghost sid = old(sys).self_id;
    let ghost cid = old(sys).caller_id;
    let ghost target = spec_run(
        c,
        inp,
        sid,
        cid,
        init_mstate(*old(st), *old(sys)),
        step_limit as nat,
    );
    let mut pc: usize = 0;
    let mut fuel: u64 = step_limit;
    loop
        invariant
            bytecode.wf(),
            c == bytecode.code@,
            inp == old(st).input_data@,
            sid == old(sys).self_id,
            cid == old(sys).caller_id,
            target == spec_run(
                c,
                inp,
                sid,
                cid,
                init_mstate(*old(st), *old(sys)),
                step_limit as nat,
            ),
            st.input_data@ == inp,
            sys.self_id == sid,
            sys.caller_id == cid,
            st.stack@.len() <= STACK_LIMIT,
            pc <= MAX_CODE_SIZE + 33,
            hamt_fresh(old(sys).storage) ==> hamt_fresh(sys.storage),
            spec_run(c, inp, sid, cid, mstate_of(pc as nat, *st, *sys), fuel as nat) == target,
            reaches_storage_op(c, inp, sid, cid, mstate_of(pc as nat, *st, *sys), fuel as nat)
                ==> reaches_storage_op(
                c,
                inp,
                sid,
                cid,
                init_mstate(*old(st), *old(sys)),
                step_limit as nat,
            ),
        decreases fuel,
    {
        let ghost prev = mstate_of(pc as nat, *st, *sys);
        if fuel == 0 {
            proof {
                reveal(spec_run);
            }
            return Outcome {
                status: ExecStatus::Fault(FaultKind::StepLimitExceeded),
                output: Vec::new(),
                selfdestruct: None,
            };
        }
        let stepped: Option<Outcome> = step_once(bytecode, st, sys, &mut pc);
        fuel = fuel - 1;
        match stepped {
            None => {
                proof {
                    lemma_run_step(
                        c,
                        inp,
                        sid,
                        cid,
                        prev,
                        mstate_of(pc as nat, *st, *sys),
                        (fuel + 1) as nat,
                    );
                    if reaches_storage_op(
                        c,
                        inp,
                        sid,
                        cid,
                        mstate_of(pc as nat, *st, *sys),
                        fuel as nat,
                    ) {
                        lemma_reaches_step(
                            c,
                            inp,
                            sid,
                            cid,
                            prev,
                            mstate_of(pc as nat, *st, *sys),
                            (fuel + 1) as nat,
                        );
                    }
                }
            },
            Some(out) => {
                proof {
                    let rr = RunResult {
                        status: out.status,
                        output: out.output@,
                        selfdestruct: out.selfdestruct,
                        store: sys.storage_view(),
                    };
                    if spec_step(c, inp, sid, cid, prev) == StepResult::Done(rr) {
                        lemma_run_done(c, inp, sid, cid, prev, (fuel + 1) as nat, rr);
                    }
                    if at_storage_op(c, prev) {
                        lemma_reaches_here(c, inp, sid, cid, prev, (fuel + 1) as nat);
                    }
                }
                return out;
            },
        }
    }
}

} // verus!
