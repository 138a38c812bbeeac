//! The bytecode loader: validates raw contract code and indexes its valid
//! jump destinations.
//!
//! A byte is a valid jump target exactly when it holds the jump-destination
//! marker opcode and is reached by the linear scan as an instruction
//! boundary; the immediate data bytes that follow a push instruction are
//! skipped and can never be jump targets.

use vstd::prelude::*;

verus! {

/// Maximum allowed contract code size in bytes (24 KiB).
pub const MAX_CODE_SIZE: usize = 24576;

/// The jump-destination marker opcode.
pub const OP_JUMPDEST: u8 = 0x5b;

/// Whether an opcode pushes immediate data.
pub open spec fn is_push(op: u8) -> bool {
    0x60 <= op <= 0x7f
}

/// How many immediate data bytes follow a push opcode.
pub open spec fn push_data_len(op: u8) -> nat {
    (op - 0x5f) as nat
}

/// The scan position that follows position `i`: one past the opcode and its
/// immediate data, clamped to the end of the code.
pub open spec fn next_position(code: Seq<u8>, i: nat) -> nat {
    let step: nat = if is_push(code[i as int]) {
        1 + push_data_len(code[i as int])
    } else {
        1
    };
    if i + step > code.len() {
        code.len() as nat
    } else {
        (i + step) as nat
    }
}

/// The set of valid jump destinations found by scanning from position `i`.
pub open spec fn jd_scan(code: Seq<u8>, i: nat) -> Set<nat>
    decreases code.len() - i,
{
    if i >= code.len() {
        Set::empty()
    } else {
        let rest = jd_scan(code, next_position(code, i));
        if code[i as int] == OP_JUMPDEST {
            rest.insert(i)
        } else {
            rest
        }
    }
}

/// The set of instruction boundaries found by scanning from position `i`.
pub open spec fn scan_positions(code: Seq<u8>, i: nat) -> Set<nat>
    decreases code.len() - i,
{
    if i >= code.len() {
        Set::empty()
    } else {
        scan_positions(code, next_position(code, i)).insert(i)
    }
}

/// Whether byte offset `t` is a valid jump destination of the code.
pub open spec fn spec_is_jumpdest(code: Seq<u8>, t: nat) -> bool {
    jd_scan(code, 0).contains(t)
}

/// Every jump destination found from position `i` lies in `[i, len)`.
pub proof fn lemma_jd_scan_range(code: Seq<u8>, i: nat)
    ensures
        forall|t: nat| jd_scan(code, i).contains(t) ==> i <= t < code.len(),
    decreases code.len() - i,
{
    if i < code.len() {
        let nxt = next_position(code, i);
        lemma_jd_scan_range(code, nxt);
        assert forall|t: nat| jd_scan(code, i).contains(t) implies i <= t < code.len() by {
            if t != i {
                assert(jd_scan(code, nxt).contains(t));
            }
        }
    }
}

/// Every instruction boundary found from position `i` lies in `[i, len)`.
pub proof fn lemma_scan_positions_range(code: Seq<u8>, i: nat)
    ensures
        forall|t: nat| scan_positions(code, i).contains(t) ==> i <= t < code.len(),
    decreases code.len() - i,
{
    if i < code.len() {
        let nxt = next_position(code, i);
        lemma_scan_positions_range(code, nxt);
        assert forall|t: nat| scan_positions(code, i).contains(t) implies i <= t
            < code.len() by {
            if t != i {
                assert(scan_positions(code, nxt).contains(t));
            }
        }
    }
}

proof fn lemma_push_data_not_jumpdest_from(code: Seq<u8>, i: nat, p: nat, q: nat)
    requires
        scan_positions(code, i).contains(p),
        is_push(code[p as int]),
        p < q <= p + push_data_len(code[p as int]),
        q < code.len(),
    ensures
        !jd_scan(code, i).contains(q),
    decreases code.len() - i,
{
    lemma_scan_positions_range(code, i);
    let nxt = next_position(code, i);
    if i == p {
        lemma_jd_scan_range(code, nxt);
        assert(q < nxt);
        assert(!jd_scan(code, nxt).contains(q));
    } else {
        assert(scan_positions(code, nxt).contains(p));
        lemma_scan_positions_range(code, nxt);
        assert(nxt <= p);
        lemma_push_data_not_jumpdest_from(code, nxt, p, q);
    }
}

/// Immediate data is never a jump destination: a byte offset that lies
/// strictly inside the immediate data of a push instruction reached at an
/// instruction boundary is rejected by the jump-destination analysis.
pub proof fn lemma_push_data_not_jumpdest(code: Seq<u8>, p: nat, q: nat)
    requires
        scan_positions(code, 0).contains(p),
        is_push(code[p as int]),
        p < q <= p + push_data_len(code[p as int]),
        q < code.len(),
    ensures
        !spec_is_jumpdest(code, q),
{
    lemma_push_data_not_jumpdest_from(code, 0, p, q);
}

/// A loader error: the raw code's length is outside the allowed bounds.
#[derive(Clone, Copy, Debug, PartialEq, Eq, Structural)]
pub enum BytecodeError {
    EmptyCode,
    OversizedCode,
}

/// Contract code analyzed for execution: the raw bytes and one flag per byte
/// that records whether the byte is a valid jump destination.
pub struct Bytecode {
    pub code: Vec<u8>,
    pub jumpdests: Vec<bool>,
}

impl Bytecode {
    /// The analyzed program is faithful to its code: the size bounds hold
    /// and the flags agree with the jump-destination analysis.
    pub open spec fn wf(self) -> bool {
        &&& 0 < self.code@.len() <= MAX_CODE_SIZE
        &&& self.jumpdests@.len() == self.code@.len()
        &&& forall|t: int|
            0 <= t < self.code@.len() ==> self.jumpdests@[t] == spec_is_jumpdest(
                self.code@,
                t as nat,
            )
    }

    /// Validates raw code and computes its valid jump destinations in one
    /// linear pass that skips push immediates.
    pub fn new(code: Vec<u8>) -> (r: Result<Bytecode, BytecodeError>)
        ensures
            match r {
                Ok(bc) => bc.wf() && bc.code@ == code@,
                Err(e) => (e == BytecodeError::EmptyCode <==> code@.len() == 0) && (e
                    == BytecodeError::OversizedCode <==> code@.len() > MAX_CODE_SIZE),
            },
            r.is_ok() <==> 0 < code@.len() <= MAX_CODE_SIZE,
    {
        let n: usize = code.len();
        if n == 0 {
            return Err(BytecodeError::EmptyCode);
        }
        if n > MAX_CODE_SIZE {
            return Err(BytecodeError::OversizedCode);
        }
        let mut jd: Vec<bool> = Vec::new();
        let mut k: usize = 0;
        while k < n
            invariant
                jd@.len() == k <= n,
                forall|t: int| 0 <= t < k ==> jd@[t] == false,
            decreases n - k,
        {
            jd.push(false);
            k = k + 1;
        }
        let mut i: usize = 0;
        while i < n
            invariant
                0 <= i,
                n == code@.len() <= MAX_CODE_SIZE,
                jd@.len() == n,
                forall|t: int| i <= t < n ==> jd@[t] == false,
                forall|t: int|
                    0 <= t < n ==> (#[trigger] jd_scan(code@, 0).contains(t as nat) <==> ((t < i
                        && jd@[t]) || jd_scan(code@, i as nat).contains(t as nat))),
            decreases n - i,
        {
            let op: u8 = code[i];
            let ghost jd_before = jd@;
            let ghost i0: nat = i as nat;
            if op == OP_JUMPDEST {
                jd.set(i, true);
            }
            let step: usize = if 0x60 <= op && op <= 0x7f {
                1 + ((op - 0x5f) as usize)
            } else {
                1
            };
            let nxt: usize = if i + step > n {
                n
            } else {
                i + step
            };
            proof {
                let c = code@;
                let nxt0: nat = nxt as nat;
                assert(nxt0 == next_position(c, i0));
                lemma_jd_scan_range(c, nxt0);
                lemma_jd_scan_range(c, i0);
                assert(jd_scan(c, i0) == if c[i0 as int] == OP_JUMPDEST {
                    jd_scan(c, nxt0).insert(i0)
                } else {
                    jd_scan(c, nxt0)
                });
                assert forall|t: int| 0 <= t < n implies (jd_scan(c, 0).contains(t as nat) <==> ((
                t < nxt0 && jd@[t]) || jd_scan(c, nxt0).contains(t as nat))) by {
                    assert(jd_scan(c, 0).contains(t as nat) <==> ((t < i0 && jd_before[t])
                        || jd_scan(c, i0).contains(t as nat)));
                    if t < i0 {
                        assert(jd@[t] == jd_before[t]);
                        assert(!jd_scan(c, i0).contains(t as nat));
                        assert(!jd_scan(c, nxt0).contains(t as nat));
                    } else if t == i0 {
                        assert(!jd_scan(c, nxt0).contains(t as nat));
                        assert(jd_scan(c, i0).contains(i0) <==> c[i0 as int] == OP_JUMPDEST);
                        assert(jd@[t] == (c[i0 as int] == OP_JUMPDEST));
                    } else if t < nxt0 {
                        assert(!jd_scan(c, i0).contains(t as nat));
                        assert(!jd_scan(c, nxt0).contains(t as nat));
                        assert(jd@[t] == jd_before[t]);
                        assert(jd@[t] == false);
                    } else {
                        assert(jd_scan(c, i0).contains(t as nat) <==> jd_scan(c, nxt0).contains(
                            t as nat,
                        ));
                    }
                }
            }
            i = nxt;
        }
        proof {
            assert forall|t: int| 0 <= t < n implies jd@[t] == spec_is_jumpdest(
                code@,
                t as nat,
            ) by {
                assert(jd_scan(code@, 0).contains(t as nat) <==> ((t < n && jd@[t]) || jd_scan(
                    code@,
                    n as nat,
                ).contains(t as nat)));
            }
        }
        Ok(Bytecode { code, jumpdests: jd })
    }
}

} // verus!
