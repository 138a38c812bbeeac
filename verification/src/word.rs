//! 256-bit machine words: the value type of the interpreter's operand stack
//! and of contract storage keys and values.

use vstd::prelude::*;

verus! {

/// 2^64
pub open spec fn p64() -> nat {
    0x10000000000000000
}

/// 2^256, written as one more than the largest four-limb value so that every
/// product in it carries a literal coefficient.
pub open spec fn p256() -> nat {
    1 + 0xffffffffffffffff + 0x10000000000000000 * (0xffffffffffffffff + 0x10000000000000000 * (
    0xffffffffffffffff + 0x10000000000000000 * (0xffffffffffffffff as nat)))
}

/// An unsigned 256-bit word, held as four 64-bit limbs, least significant
/// first.
#[derive(Clone, Copy, Debug, PartialEq, Eq, Structural)]
pub struct U256 {
    pub w0: u64,
    pub w1: u64,
    pub w2: u64,
    pub w3: u64,
}

impl U256 {
    /// The mathematical value of the word, in Horner form over the limbs.
    pub open spec fn as_nat(self) -> nat {
        (self.w0 as nat) + 0x10000000000000000 * ((self.w1 as nat) + 0x10000000000000000 * ((
        self.w2 as nat) + 0x10000000000000000 * (self.w3 as nat)))
    }

    pub fn zero() -> (r: U256)
        ensures
            r.as_nat() == 0,
            r == (U256 { w0: 0, w1: 0, w2: 0, w3: 0 }),
    {
        U256 { w0: 0, w1: 0, w2: 0, w3: 0 }
    }

    pub fn one() -> (r: U256)
        ensures
            r.as_nat() == 1,
            r == (U256 { w0: 1, w1: 0, w2: 0, w3: 0 }),
    {
        U256 { w0: 1, w1: 0, w2: 0, w3: 0 }
    }

    pub fn from_u64(x: u64) -> (r: U256)
        ensures
            r.as_nat() == x,
            r == (U256 { w0: x, w1: 0, w2: 0, w3: 0 }),
    {
        U256 { w0: x, w1: 0, w2: 0, w3: 0 }
    }

    /// Whether the word's value fits under the given 64-bit bound.
    pub fn fits_u64(self, cap: u64) -> (r: bool)
        ensures
            r == (self.as_nat() <= cap),
    {
        self.w1 == 0 && self.w2 == 0 && self.w3 == 0 && self.w0 <= cap
    }

    pub fn is_zero(self) -> (r: bool)
        ensures
            r == (self.as_nat() == 0),
    {
        self.w0 == 0 && self.w1 == 0 && self.w2 == 0 && self.w3 == 0
    }

    /// Addition modulo 2^256, limb by limb with carries.
    pub fn wrapping_add(self, other: U256) -> (r: U256)
        ensures
            r == spec_add(self, other),
            r.as_nat() == (self.as_nat() + other.as_nat()) % p256(),
    {
        proof {
            lemma_spec_add_value(self, other);
        }
        let (r0, c0) = add_limb(self.w0, other.w0, 0);
        let (r1, c1) = add_limb(self.w1, other.w1, c0);
        let (r2, c2) = add_limb(self.w2, other.w2, c1);
        let (r3, _c3) = add_limb(self.w3, other.w3, c2);
        U256 { w0: r0, w1: r1, w2: r2, w3: r3 }
    }

    /// Subtraction modulo 2^256, limb by limb with borrows.
    pub fn wrapping_sub(self, other: U256) -> (r: U256)
        ensures
            r == spec_sub(self, other),
            r.as_nat() == (self.as_nat() + p256() - other.as_nat()) % (p256() as int),
    {
        proof {
            lemma_spec_sub_value(self, other);
        }
        let (r0, b0) = sub_limb(self.w0, other.w0, 0);
        let (r1, b1) = sub_limb(self.w1, other.w1, b0);
        let (r2, b2) = sub_limb(self.w2, other.w2, b1);
        let (r3, _b3) = sub_limb(self.w3, other.w3, b2);
        U256 { w0: r0, w1: r1, w2: r2, w3: r3 }
    }

    /// Strict comparison by value, decided on the most significant limb that
    /// differs.
    pub fn lt(self, other: U256) -> (r: bool)
        ensures
            r == (self.as_nat() < other.as_nat()),
    {
        if self.w3 != other.w3 {
            self.w3 < other.w3
        } else if self.w2 != other.w2 {
            self.w2 < other.w2
        } else if self.w1 != other.w1 {
            self.w1 < other.w1
        } else {
            self.w0 < other.w0
        }
    }

    pub fn bit_and(self, other: U256) -> (r: U256)
        ensures
            r == spec_and(self, other),
    {
        U256 {
            w0: self.w0 & other.w0,
            w1: self.w1 & other.w1,
            w2: self.w2 & other.w2,
            w3: self.w3 & other.w3,
        }
    }

    pub fn bit_or(self, other: U256) -> (r: U256)
        ensures
            r == spec_or(self, other),
    {
        U256 {
            w0: self.w0 | other.w0,
            w1: self.w1 | other.w1,
            w2: self.w2 | other.w2,
            w3: self.w3 | other.w3,
        }
    }

    pub fn bit_xor(self, other: U256) -> (r: U256)
        ensures
            r == spec_xor(self, other),
    {
        U256 {
            w0: self.w0 ^ other.w0,
            w1: self.w1 ^ other.w1,
            w2: self.w2 ^ other.w2,
            w3: self.w3 ^ other.w3,
        }
    }

    pub fn bit_not(self) -> (r: U256)
        ensures
            r == spec_not(self),
    {
        U256 { w0: !self.w0, w1: !self.w1, w2: !self.w2, w3: !self.w3 }
    }
}

/// Addition modulo 2^256 as a function on limbs.
pub open spec fn spec_add(a: U256, b: U256) -> U256 {
    let t0 = a.w0 + b.w0;
    let c0 = t0 / 0x10000000000000000;
    let t1 = a.w1 + b.w1 + c0;
    let c1 = t1 / 0x10000000000000000;
    let t2 = a.w2 + b.w2 + c1;
    let c2 = t2 / 0x10000000000000000;
    let t3 = a.w3 + b.w3 + c2;
    U256 {
        w0: (t0 % 0x10000000000000000) as u64,
        w1: (t1 % 0x10000000000000000) as u64,
        w2: (t2 % 0x10000000000000000) as u64,
        w3: (t3 % 0x10000000000000000) as u64,
    }
}

/// Subtraction modulo 2^256 as a function on limbs.
pub open spec fn spec_sub(a: U256, b: U256) -> U256 {
    let d0 = a.w0 - b.w0;
    let bor0: int = if d0 < 0 {
        1
    } else {
        0
    };
    let d1 = a.w1 - b.w1 - bor0;
    let bor1: int = if d1 < 0 {
        1
    } else {
        0
    };
    let d2 = a.w2 - b.w2 - bor1;
    let bor2: int = if d2 < 0 {
        1
    } else {
        0
    };
    let d3 = a.w3 - b.w3 - bor2;
    let bor3: int = if d3 < 0 {
        1
    } else {
        0
    };
    U256 {
        w0: (d0 + bor0 * 0x10000000000000000) as u64,
        w1: (d1 + bor1 * 0x10000000000000000) as u64,
        w2: (d2 + bor2 * 0x10000000000000000) as u64,
        w3: (d3 + bor3 * 0x10000000000000000) as u64,
    }
}

pub open spec fn spec_and(a: U256, b: U256) -> U256 {
    U256 { w0: a.w0 & b.w0, w1: a.w1 & b.w1, w2: a.w2 & b.w2, w3: a.w3 & b.w3 }
}

pub open spec fn spec_or(a: U256, b: U256) -> U256 {
    U256 { w0: a.w0 | b.w0, w1: a.w1 | b.w1, w2: a.w2 | b.w2, w3: a.w3 | b.w3 }
}

pub open spec fn spec_xor(a: U256, b: U256) -> U256 {
    U256 { w0: a.w0 ^ b.w0, w1: a.w1 ^ b.w1, w2: a.w2 ^ b.w2, w3: a.w3 ^ b.w3 }
}

pub open spec fn spec_not(a: U256) -> U256 {
    U256 { w0: !a.w0, w1: !a.w1, w2: !a.w2, w3: !a.w3 }
}

/// One limb of a multi-limb addition: a + b + carry-in split into a low limb
/// and a carry-out.
fn add_limb(a: u64, b: u64, cin: u64) -> (r: (u64, u64))
    requires
        cin <= 1,
    ensures
        r.0 == (a + b + cin) % 0x10000000000000000,
        r.1 == (a + b + cin) / 0x10000000000000000,
{
    let s: u128 = a as u128 + b as u128 + cin as u128;
    let lo: u64 = (s % 0x10000000000000000u128) as u64;
    let hi: u64 = (s / 0x10000000000000000u128) as u64;
    (lo, hi)
}

/// One limb of a multi-limb subtraction: a - b - borrow-in split into a low
/// limb and a borrow-out.
fn sub_limb(a: u64, b: u64, bin: u64) -> (r: (u64, u64))
    requires
        bin <= 1,
    ensures
        (r.0 as int) == a - b - bin + (r.1 as int) * 0x10000000000000000,
        r.1 <= 1,
        (r.1 == 1) == (a - b - bin < 0),
{
    let rhs: u128 = b as u128 + bin as u128;
    let av: u128 = a as u128;
    if av >= rhs {
        ((av - rhs) as u64, 0)
    } else {
        ((av + 0x10000000000000000u128 - rhs) as u64, 1)
    }
}

/// The limb-level addition computes addition modulo 2^256 on values.
pub proof fn lemma_spec_add_value(a: U256, b: U256)
    ensures
        spec_add(a, b).as_nat() == (a.as_nat() + b.as_nat()) % p256(),
{
    let m: int = 0x10000000000000000;
    let t0 = a.w0 + b.w0;
    let c0 = t0 / m;
    let t1 = a.w1 + b.w1 + c0;
    let c1 = t1 / m;
    let t2 = a.w2 + b.w2 + c1;
    let c2 = t2 / m;
    let t3 = a.w3 + b.w3 + c2;
    let c3 = t3 / m;
    vstd::arithmetic::div_mod::lemma_fundamental_div_mod(t0, m);
    vstd::arithmetic::div_mod::lemma_fundamental_div_mod(t1, m);
    vstd::arithmetic::div_mod::lemma_fundamental_div_mod(t2, m);
    vstd::arithmetic::div_mod::lemma_fundamental_div_mod(t3, m);
    let r = spec_add(a, b);
    assert(0 <= c0 <= 1 && 0 <= c1 <= 1 && 0 <= c2 <= 1 && 0 <= c3 <= 1);
    if c3 == 0 {
        assert(r.as_nat() == a.as_nat() + b.as_nat());
        vstd::arithmetic::div_mod::lemma_small_mod(r.as_nat(), p256());
    } else {
        assert(r.as_nat() + p256() == a.as_nat() + b.as_nat());
        vstd::arithmetic::div_mod::lemma_mod_multiples_vanish(1, r.as_nat() as int, p256() as int);
        vstd::arithmetic::div_mod::lemma_small_mod(r.as_nat(), p256());
    }
}

/// The limb-level subtraction computes subtraction modulo 2^256 on values.
pub proof fn lemma_spec_sub_value(a: U256, b: U256)
    ensures
        spec_sub(a, b).as_nat() == (a.as_nat() + p256() - b.as_nat()) % (p256() as int),
{
    let d0 = a.w0 - b.w0;
    let bor0: int = if d0 < 0 {
        1
    } else {
        0
    };
    let d1 = a.w1 - b.w1 - bor0;
    let bor1: int = if d1 < 0 {
        1
    } else {
        0
    };
    let d2 = a.w2 - b.w2 - bor1;
    let bor2: int = if d2 < 0 {
        1
    } else {
        0
    };
    let d3 = a.w3 - b.w3 - bor2;
    let bor3: int = if d3 < 0 {
        1
    } else {
        0
    };
    let r = spec_sub(a, b);
    assert(r.as_nat() == a.as_nat() - b.as_nat() + bor3 * p256());
    if bor3 == 0 {
        vstd::arithmetic::div_mod::lemma_mod_multiples_vanish(
            1,
            (a.as_nat() - b.as_nat()) as int,
            p256() as int,
        );
        vstd::arithmetic::div_mod::lemma_small_mod(r.as_nat(), p256());
    } else {
        vstd::arithmetic::div_mod::lemma_small_mod(r.as_nat(), p256());
    }
}

/// Words with equal values have equal limbs.
pub proof fn lemma_as_nat_injective(a: U256, b: U256)
    requires
        a.as_nat() == b.as_nat(),
    ensures
        a == b,
{
}

/// The word whose value is `v`, for `v` below 2^256: the base-2^64 digits of
/// `v` as limbs.
pub open spec fn word_of_nat(v: nat) -> U256 {
    U256 {
        w0: (v % 0x10000000000000000) as u64,
        w1: ((v / 0x10000000000000000) % 0x10000000000000000) as u64,
        w2: (((v / 0x10000000000000000) / 0x10000000000000000) % 0x10000000000000000) as u64,
        w3: ((((v / 0x10000000000000000) / 0x10000000000000000) / 0x10000000000000000)
            % 0x10000000000000000) as u64,
    }
}

/// Multiplication modulo 2^256 as a function on values.
pub open spec fn spec_mul(a: U256, b: U256) -> U256 {
    word_of_nat((a.as_nat() * b.as_nat()) % p256())
}

/// Taking the word of a value below 2^256 preserves the value.
pub proof fn lemma_word_of_nat_value(v: nat)
    requires
        v < p256(),
    ensures
        word_of_nat(v).as_nat() == v,
{
    let m: int = 0x10000000000000000;
    let vi: int = v as int;
    let q1 = vi / m;
    let q2 = q1 / m;
    let q3 = q2 / m;
    vstd::arithmetic::div_mod::lemma_fundamental_div_mod(vi, m);
    vstd::arithmetic::div_mod::lemma_fundamental_div_mod(q1, m);
    vstd::arithmetic::div_mod::lemma_fundamental_div_mod(q2, m);
    vstd::arithmetic::div_mod::lemma_div_is_ordered(vi, p256() as int - 1, m);
    assert(q1 <= 0xffffffffffffffff + 0x10000000000000000 * (0xffffffffffffffff
        + 0x10000000000000000 * (0xffffffffffffffff as int)));
    vstd::arithmetic::div_mod::lemma_div_is_ordered(
        q1,
        0xffffffffffffffff + 0x10000000000000000 * (0xffffffffffffffff + 0x10000000000000000 * (
        0xffffffffffffffff as int)),
        m,
    );
    assert(q2 <= 0xffffffffffffffff + 0x10000000000000000 * (0xffffffffffffffff as int));
    vstd::arithmetic::div_mod::lemma_div_is_ordered(
        q2,
        0xffffffffffffffff + 0x10000000000000000 * (0xffffffffffffffff as int),
        m,
    );
    assert(q3 < m);
    vstd::arithmetic::div_mod::lemma_small_mod(q3 as nat, m as nat);
}

/// 2^256 as a power of two.
pub proof fn lemma_p256_is_pow2_256()
    ensures
        p256() == vstd::arithmetic::power2::pow2(256),
{
    vstd::arithmetic::power2::lemma2_to64_rest();
    vstd::arithmetic::power2::lemma_pow2_adds(64, 64);
    vstd::arithmetic::power2::lemma_pow2_adds(128, 64);
    vstd::arithmetic::power2::lemma_pow2_adds(192, 64);
    let n: int = vstd::arithmetic::power2::pow2(64) as int;
    assert(((n * n) * n) * n == 1 + 0xffffffffffffffff + 0x10000000000000000 * (
    0xffffffffffffffff + 0x10000000000000000 * (0xffffffffffffffff + 0x10000000000000000 * (
    0xffffffffffffffff as int)))) by (nonlinear_arith)
        requires
            n == 0x10000000000000000,
    ;
}

/// A bit scaled to the top position of a limb stays within the limb.
proof fn lemma_bit_times_p63(b: u64)
    requires
        b <= 1,
        vstd::arithmetic::power2::pow2(63) == 0x8000000000000000,
    ensures
        b * vstd::arithmetic::power2::pow2(63) <= u64::MAX,
{
    assert(b * 0x8000000000000000 <= 0xffffffffffffffff) by (nonlinear_arith)
        requires
            b <= 1,
    ;
}

/// One step of the double-and-add multiplication keeps its invariant: adding
/// the base on an odd remainder, doubling the base and halving the remainder
/// leaves the congruence class of the total unchanged.
proof fn lemma_mul_step(total: int, acc: int, base: int, rem: int, acc2: int, base2: int)
    requires
        0 <= acc < p256(),
        0 <= base,
        0 <= rem,
        (acc + base * rem) % (p256() as int) == total,
        acc2 == if rem % 2 == 1 {
            (acc + base) % (p256() as int)
        } else {
            acc
        },
        base2 == (base + base) % (p256() as int),
    ensures
        (acc2 + base2 * (rem / 2)) % (p256() as int) == total,
{
    let p: int = p256() as int;
    let q = rem / 2;
    let t = rem % 2;
    vstd::arithmetic::div_mod::lemma_fundamental_div_mod(rem, 2);
    assert(base * rem == 2 * base * q + t * base) by (nonlinear_arith)
        requires
            rem == 2 * q + t,
    ;
    let large = acc + t * base;
    assert(acc2 == large % p) by {
        if t == 1 {
        } else {
            vstd::arithmetic::div_mod::lemma_small_mod(acc as nat, p as nat);
        }
    }
    assert(0 <= q);
    assert((base2 * q) % p == ((base + base) * q) % p) by {
        vstd::arithmetic::div_mod::lemma_mul_mod_noop_left(base + base, q, p);
    }
    vstd::arithmetic::div_mod::lemma_add_mod_noop_right(large % p, base2 * q, p);
    vstd::arithmetic::div_mod::lemma_add_mod_noop(large, base2 * q, p);
    assert((acc2 + base2 * q) % p == (large + base2 * q) % p);
    vstd::arithmetic::div_mod::lemma_add_mod_noop_right(large, base2 * q, p);
    vstd::arithmetic::div_mod::lemma_add_mod_noop_right(large, (base + base) * q, p);
    assert((large + base2 * q) % p == (large + (base + base) * q) % p);
    assert(large + (base + base) * q == acc + base * rem);
}

impl U256 {
    /// Whether the word's value is odd.
    pub fn is_odd(self) -> (r: bool)
        ensures
            r == (self.as_nat() % 2 == 1),
    {
        proof {
            vstd::bits::lemma_low_bits_mask_values();
            vstd::bits::lemma_u64_low_bits_mask_is_mod(self.w0, 1);
            vstd::arithmetic::power2::lemma2_to64();
            vstd::arithmetic::div_mod::lemma_mod_multiples_vanish(
                0x8000000000000000 * ((self.w1 as int) + 0x10000000000000000 * ((self.w2 as int)
                    + 0x10000000000000000 * (self.w3 as int))),
                self.w0 as int,
                2,
            );
        }
        (self.w0 & 1) == 1
    }

    /// The word's value halved, by shifting every limb right one bit and
    /// carrying the dropped bit of the limb above.
    pub fn half(self) -> (r: U256)
        ensures
            r.as_nat() == self.as_nat() / 2,
    {
        proof {
            vstd::bits::lemma_low_bits_mask_values();
            vstd::arithmetic::power2::lemma2_to64();
            vstd::arithmetic::power2::lemma2_to64_rest();
            vstd::bits::lemma_u64_shr_is_div(self.w0, 1);
            vstd::bits::lemma_u64_shr_is_div(self.w1, 1);
            vstd::bits::lemma_u64_shr_is_div(self.w2, 1);
            vstd::bits::lemma_u64_shr_is_div(self.w3, 1);
            vstd::bits::lemma_u64_low_bits_mask_is_mod(self.w1, 1);
            vstd::bits::lemma_u64_low_bits_mask_is_mod(self.w2, 1);
            vstd::bits::lemma_u64_low_bits_mask_is_mod(self.w3, 1);
            assert((self.w1 & 1) * vstd::arithmetic::power2::pow2(63) <= u64::MAX && (self.w2 & 1)
                * vstd::arithmetic::power2::pow2(63) <= u64::MAX && (self.w3 & 1)
                * vstd::arithmetic::power2::pow2(63) <= u64::MAX) by {
                lemma_bit_times_p63(self.w1 & 1);
                lemma_bit_times_p63(self.w2 & 1);
                lemma_bit_times_p63(self.w3 & 1);
            }
            vstd::bits::lemma_u64_shl_is_mul(self.w1 & 1, 63);
            vstd::bits::lemma_u64_shl_is_mul(self.w2 & 1, 63);
            vstd::bits::lemma_u64_shl_is_mul(self.w3 & 1, 63);
            vstd::arithmetic::div_mod::lemma_fundamental_div_mod(self.w0 as int, 2);
            vstd::arithmetic::div_mod::lemma_fundamental_div_mod(self.w1 as int, 2);
            vstd::arithmetic::div_mod::lemma_fundamental_div_mod(self.w2 as int, 2);
            vstd::arithmetic::div_mod::lemma_fundamental_div_mod(self.w3 as int, 2);
        }
        let r = U256 {
            w0: (self.w0 >> 1) + ((self.w1 & 1) << 63),
            w1: (self.w1 >> 1) + ((self.w2 & 1) << 63),
            w2: (self.w2 >> 1) + ((self.w3 & 1) << 63),
            w3: self.w3 >> 1,
        };
        proof {
            assert(self.as_nat() == 2 * r.as_nat() + (self.w0 as nat) % 2);
            vstd::arithmetic::div_mod::lemma_fundamental_div_mod_converse(
                self.as_nat() as int,
                2,
                r.as_nat() as int,
                ((self.w0 as nat) % 2) as int,
            );
        }
        r
    }

    /// Multiplication modulo 2^256, by binary double-and-add over the
    /// verified wrapping addition.
    pub fn wrapping_mul(self, other: U256) -> (r: U256)
        ensures
            r == spec_mul(self, other),
            r.as_nat() == (self.as_nat() * other.as_nat()) % p256(),
    {
        let ghost total: int = ((self.as_nat() * other.as_nat()) % p256()) as int;
        let mut acc = U256::zero();
        let mut base = self;
        let mut rem = other;
        let mut k: usize = 0;
        proof {
            vstd::arithmetic::power2::lemma_pow2_pos(0);
            assert(vstd::arithmetic::power2::pow2(0) == 1) by {
                vstd::arithmetic::power2::lemma2_to64();
            }
        }
        while k < 256
            invariant
                0 <= k <= 256,
                total == ((self.as_nat() * other.as_nat()) % p256()) as int,
                rem.as_nat() == other.as_nat() / vstd::arithmetic::power2::pow2(k as nat),
                ((acc.as_nat() + base.as_nat() * rem.as_nat()) as int) % (p256() as int) == total,
            decreases 256 - k,
        {
            let ghost acc0 = acc.as_nat();
            let ghost base0 = base.as_nat();
            let ghost rem0 = rem.as_nat();
            if rem.is_odd() {
                acc = acc.wrapping_add(base);
            }
            base = base.wrapping_add(base);
            rem = rem.half();
            k = k + 1;
            proof {
                lemma_mul_step(
                    total,
                    acc0 as int,
                    base0 as int,
                    rem0 as int,
                    acc.as_nat() as int,
                    base.as_nat() as int,
                );
                vstd::arithmetic::power2::lemma_pow2_unfold(k as nat);
                vstd::arithmetic::power2::lemma_pow2_pos((k - 1) as nat);
                vstd::arithmetic::div_mod::lemma_div_denominator(
                    other.as_nat() as int,
                    vstd::arithmetic::power2::pow2((k - 1) as nat) as int,
                    2,
                );
                assert(vstd::arithmetic::power2::pow2((k - 1) as nat) as int * 2 == vstd::arithmetic::power2::pow2(
                    k as nat,
                ) as int) by (nonlinear_arith)
                    requires
                        vstd::arithmetic::power2::pow2(k as nat) == 2 * vstd::arithmetic::power2::pow2(
                            (k - 1) as nat,
                        ),
                ;
            }
        }
        proof {
            lemma_p256_is_pow2_256();
            vstd::arithmetic::div_mod::lemma_basic_div(
                other.as_nat() as int,
                vstd::arithmetic::power2::pow2(256) as int,
            );
            assert(rem.as_nat() == 0);
            assert(base.as_nat() * rem.as_nat() == 0) by (nonlinear_arith)
                requires
                    rem.as_nat() == 0,
            ;
            assert(acc.as_nat() < p256());
            vstd::arithmetic::div_mod::lemma_small_mod(acc.as_nat(), p256());
            assert(acc.as_nat() == (self.as_nat() * other.as_nat()) % p256());
            lemma_word_of_nat_value((self.as_nat() * other.as_nat()) % p256());
            lemma_as_nat_injective(acc, word_of_nat((self.as_nat() * other.as_nat()) % p256()));
        }
        acc
    }
}

} // verus!
