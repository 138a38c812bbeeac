//! Byte buffers and big-endian word encoding: the bridge between 256-bit
//! words and the interpreter's linear memory, call data and storage slots.

use vstd::prelude::*;
use crate::word::U256;

verus! {

/// Big-endian byte `i` (0 is the most significant) of a word.
pub open spec fn be_byte(w: U256, i: int) -> u8 {
    let limb: u64 = if i < 8 {
        w.w3
    } else if i < 16 {
        w.w2
    } else if i < 24 {
        w.w1
    } else {
        w.w0
    };
    ((limb >> byte_shift(i)) & 0xff) as u8
}

/// How far the limb is shifted right to bring byte `i` to the bottom.
pub open spec fn byte_shift(i: int) -> u64 {
    if i % 8 == 0 {
        56
    } else if i % 8 == 1 {
        48
    } else if i % 8 == 2 {
        40
    } else if i % 8 == 3 {
        32
    } else if i % 8 == 4 {
        24
    } else if i % 8 == 5 {
        16
    } else if i % 8 == 6 {
        8
    } else {
        0
    }
}

/// The 32-byte big-endian encoding of a word.
pub open spec fn be_bytes(w: U256) -> Seq<u8> {
    Seq::new(32, |i: int| be_byte(w, i))
}

/// One limb read back from eight big-endian bytes.
pub open spec fn be_limb(s: Seq<u8>, off: int) -> u64 {
    ((s[off] as nat) * 0x100000000000000 + (s[off + 1] as nat) * 0x1000000000000 + (s[off
        + 2] as nat) * 0x10000000000 + (s[off + 3] as nat) * 0x100000000 + (s[off + 4] as nat)
        * 0x1000000 + (s[off + 5] as nat) * 0x10000 + (s[off + 6] as nat) * 0x100 + (s[off
        + 7] as nat)) as u64
}

/// The word encoded by a 32-byte big-endian sequence.
pub open spec fn word_of_be(s: Seq<u8>) -> U256 {
    U256 { w0: be_limb(s, 24), w1: be_limb(s, 16), w2: be_limb(s, 8), w3: be_limb(s, 0) }
}

/// `n` bytes of a buffer starting at `off`, padded with zeroes past its end.
pub open spec fn padded_slice(s: Seq<u8>, off: int, n: int) -> Seq<u8> {
    Seq::new(n as nat, |i: int| if off + i < s.len() {
        s[off + i]
    } else {
        0u8
    })
}

/// A buffer after a 32-byte word is written at `off`, first extended with
/// zeroes so that the write fits.
pub open spec fn write_word(mem: Seq<u8>, off: int, w: U256) -> Seq<u8> {
    let n = if mem.len() >= off + 32 {
        mem.len() as int
    } else {
        off + 32
    };
    Seq::new(n as nat, |i: int| if off <= i < off + 32 {
        be_byte(w, i - off)
    } else if i < mem.len() {
        mem[i]
    } else {
        0u8
    })
}

/// A buffer after a byte sequence is written at `off`, first extended with
/// zeroes so that the write fits.
pub open spec fn write_seq(mem: Seq<u8>, off: int, data: Seq<u8>) -> Seq<u8> {
    let n = if mem.len() >= off + data.len() {
        mem.len() as int
    } else {
        off + data.len()
    };
    Seq::new(n as nat, |i: int| if off <= i < off + data.len() {
        data[i - off]
    } else if i < mem.len() {
        mem[i]
    } else {
        0u8
    })
}

/// The all-zero sequence encodes the zero word.
pub proof fn lemma_word_of_zeroes(s: Seq<u8>)
    requires
        s.len() == 32,
        forall|i: int| 0 <= i < 32 ==> s[i] == 0u8,
    ensures
        word_of_be(s) == (U256 { w0: 0, w1: 0, w2: 0, w3: 0 }),
{
}

/// The 32-byte big-endian encoding of a word, as a vector.
pub fn word_to_be_bytes(w: U256) -> (r: Vec<u8>)
    ensures
        r@ == be_bytes(w),
{
    let mut out: Vec<u8> = Vec::new();
    let mut i: usize = 0;
    while i < 32
        invariant
            0 <= i <= 32,
            out@.len() == i,
            forall|k: int| 0 <= k < i ==> out@[k] == be_byte(w, k),
        decreases 32 - i,
    {
        let limb: u64 = if i < 8 {
            w.w3
        } else if i < 16 {
            w.w2
        } else if i < 24 {
            w.w1
        } else {
            w.w0
        };
        let m: usize = i % 8;
        let sh: u64 = if m == 0 {
            56
        } else if m == 1 {
            48
        } else if m == 2 {
            40
        } else if m == 3 {
            32
        } else if m == 4 {
            24
        } else if m == 5 {
            16
        } else if m == 6 {
            8
        } else {
            0
        };
        let b: u8 = ((limb >> sh) & 0xff) as u8;
        proof {
            assert(b == be_byte(w, i as int));
        }
        out.push(b);
        i = i + 1;
    }
    proof {
        assert(out@ =~= be_bytes(w));
    }
    out
}

/// The word encoded by a 32-byte vector.
pub fn word_from_be_bytes(s: &Vec<u8>) -> (r: U256)
    requires
        s@.len() == 32,
    ensures
        r == word_of_be(s@),
{
    let w3 = limb_from_be(s, 0);
    let w2 = limb_from_be(s, 8);
    let w1 = limb_from_be(s, 16);
    let w0 = limb_from_be(s, 24);
    U256 { w0, w1, w2, w3 }
}

/// One limb read from eight big-endian bytes of a vector.
fn limb_from_be(s: &Vec<u8>, off: usize) -> (r: u64)
    requires
        off + 8 <= s@.len(),
        s@.len() <= usize::MAX,
    ensures
        r == be_limb(s@, off as int),
{
    (s[off] as u64) * 0x100000000000000 + (s[off + 1] as u64) * 0x1000000000000 + (s[off
        + 2] as u64) * 0x10000000000 + (s[off + 3] as u64) * 0x100000000 + (s[off + 4] as u64)
        * 0x1000000 + (s[off + 5] as u64) * 0x10000 + (s[off + 6] as u64) * 0x100 + (s[off
        + 7] as u64)
}

/// `n` bytes of a buffer starting at `off`, padded with zeroes past its end.
pub fn read_padded(buf: &Vec<u8>, off: usize, n: usize) -> (r: Vec<u8>)
    requires
        off + n <= usize::MAX,
    ensures
        r@ == padded_slice(buf@, off as int, n as int),
{
    let blen: usize = buf.len();
    let mut out: Vec<u8> = Vec::new();
    let mut j: usize = 0;
    while j < n
        invariant
            0 <= j <= n,
            off + n <= usize::MAX,
            blen == buf@.len(),
            out@.len() == j,
            forall|k: int|
                0 <= k < j ==> out@[k] == padded_slice(buf@, off as int, n as int)[k],
        decreases n - j,
    {
        if off + j < blen {
            let b = buf[off + j];
            proof {
                assert(b == padded_slice(buf@, off as int, n as int)[j as int]);
            }
            out.push(b);
        } else {
            proof {
                assert(padded_slice(buf@, off as int, n as int)[j as int] == 0u8);
            }
            out.push(0u8);
        }
        j = j + 1;
    }
    proof {
        assert(out@ =~= padded_slice(buf@, off as int, n as int));
    }
    out
}

/// `n` bytes of a buffer starting at a word-sized offset, padded with
/// zeroes past the buffer's end.
pub fn read_padded_at(buf: &Vec<u8>, off: U256, n: usize) -> (r: Vec<u8>)
    ensures
        r@ == padded_slice(buf@, off.as_nat() as int, n as int),
{
    let blen: usize = buf.len();
    let mut v: Vec<u8> = Vec::new();
    if off.fits_u64(blen as u64) {
        let off_us: usize = off.w0 as usize;
        proof {
            assert(off_us == off.as_nat());
        }
        let mut j: usize = 0;
        while j < n
            invariant
                0 <= j <= n,
                v@.len() == j,
                off_us == off.as_nat() <= blen,
                blen == buf@.len(),
                forall|k: int|
                    0 <= k < j ==> v@[k] == padded_slice(buf@, off.as_nat() as int, n as int)[k],
            decreases n - j,
        {
            if j < blen - off_us {
                v.push(buf[off_us + j]);
            } else {
                v.push(0u8);
            }
            j = j + 1;
        }
        proof {
            assert(v@ =~= padded_slice(buf@, off.as_nat() as int, n as int));
        }
        v
    } else {
        let mut j: usize = 0;
        while j < n
            invariant
                0 <= j <= n,
                v@.len() == j,
                off.as_nat() > blen,
                blen == buf@.len(),
                forall|k: int| 0 <= k < j ==> v@[k] == 0u8,
            decreases n - j,
        {
            v.push(0u8);
            j = j + 1;
        }
        proof {
            assert(v@ =~= padded_slice(buf@, off.as_nat() as int, n as int));
        }
        v
    }
}

/// The word read big-endian from 32 bytes of a buffer at a word-sized
/// offset, bytes past the buffer's end reading as zero.
pub fn read_word_padded(buf: &Vec<u8>, off: U256) -> (r: U256)
    ensures
        r == word_of_be(padded_slice(buf@, off.as_nat() as int, 32)),
{
    let v = read_padded_at(buf, off, 32);
    word_from_be_bytes(&v)
}

/// A 64-bit value is the sum of its eight big-endian bytes at their places.
proof fn lemma_u64_digits(x: u64)
    ensures
        ((((x >> 56) & 0xff) as u8) as nat) * 0x100000000000000 + ((((x >> 48)
            & 0xff) as u8) as nat) * 0x1000000000000 + ((((x >> 40) & 0xff) as u8) as nat)
            * 0x10000000000 + ((((x >> 32) & 0xff) as u8) as nat) * 0x100000000 + ((((x >> 24)
            & 0xff) as u8) as nat) * 0x1000000 + ((((x >> 16) & 0xff) as u8) as nat) * 0x10000 + ((((
        x >> 8) & 0xff) as u8) as nat) * 0x100 + ((((x >> 0) & 0xff) as u8) as nat) == x,
{
    vstd::arithmetic::power2::lemma2_to64();
    vstd::arithmetic::power2::lemma2_to64_rest();
    vstd::bits::lemma_low_bits_mask_values();
    let xi: int = x as int;
    assert((((x >> 0) & 0xff) as u8) as int == xi % 0x100) by {
        vstd::bits::lemma_u64_shr_is_div(x, 0);
        vstd::bits::lemma_u64_low_bits_mask_is_mod(x >> 0, 8);
    }
    assert((((x >> 8) & 0xff) as u8) as int == (xi / 0x100) % 0x100) by {
        vstd::bits::lemma_u64_shr_is_div(x, 8);
        vstd::bits::lemma_u64_low_bits_mask_is_mod(x >> 8, 8);
    }
    assert((((x >> 16) & 0xff) as u8) as int == (xi / 0x10000) % 0x100) by {
        vstd::bits::lemma_u64_shr_is_div(x, 16);
        vstd::bits::lemma_u64_low_bits_mask_is_mod(x >> 16, 8);
    }
    assert((((x >> 24) & 0xff) as u8) as int == (xi / 0x1000000) % 0x100) by {
        vstd::bits::lemma_u64_shr_is_div(x, 24);
        vstd::bits::lemma_u64_low_bits_mask_is_mod(x >> 24, 8);
    }
    assert((((x >> 32) & 0xff) as u8) as int == (xi / 0x100000000) % 0x100) by {
        vstd::bits::lemma_u64_shr_is_div(x, 32);
        vstd::bits::lemma_u64_low_bits_mask_is_mod(x >> 32, 8);
    }
    assert((((x >> 40) & 0xff) as u8) as int == (xi / 0x10000000000) % 0x100) by {
        vstd::bits::lemma_u64_shr_is_div(x, 40);
        vstd::bits::lemma_u64_low_bits_mask_is_mod(x >> 40, 8);
    }
    assert((((x >> 48) & 0xff) as u8) as int == (xi / 0x1000000000000) % 0x100) by {
        vstd::bits::lemma_u64_shr_is_div(x, 48);
        vstd::bits::lemma_u64_low_bits_mask_is_mod(x >> 48, 8);
    }
    assert((((x >> 56) & 0xff) as u8) as int == (xi / 0x100000000000000) % 0x100) by {
        vstd::bits::lemma_u64_shr_is_div(x, 56);
        vstd::bits::lemma_u64_low_bits_mask_is_mod(x >> 56, 8);
    }
    vstd::arithmetic::div_mod::lemma_fundamental_div_mod(xi, 0x100);
    vstd::arithmetic::div_mod::lemma_fundamental_div_mod(xi / 0x100, 0x100);
    vstd::arithmetic::div_mod::lemma_fundamental_div_mod(xi / 0x10000, 0x100);
    vstd::arithmetic::div_mod::lemma_fundamental_div_mod(xi / 0x1000000, 0x100);
    vstd::arithmetic::div_mod::lemma_fundamental_div_mod(xi / 0x100000000, 0x100);
    vstd::arithmetic::div_mod::lemma_fundamental_div_mod(xi / 0x10000000000, 0x100);
    vstd::arithmetic::div_mod::lemma_fundamental_div_mod(xi / 0x1000000000000, 0x100);
    lemma_div_chain(xi, 0x100, 0x10000);
    lemma_div_chain(xi, 0x10000, 0x1000000);
    lemma_div_chain(xi, 0x1000000, 0x100000000);
    lemma_div_chain(xi, 0x100000000, 0x10000000000);
    lemma_div_chain(xi, 0x10000000000, 0x1000000000000);
    lemma_div_chain(xi, 0x1000000000000, 0x100000000000000);
    assert(xi / 0x100000000000000 < 0x100);
    vstd::arithmetic::div_mod::lemma_small_mod((xi / 0x100000000000000) as nat, 0x100);
}

/// Dividing by one power of 256 and then by 256 is dividing by the next.
proof fn lemma_div_chain(x: int, c: int, e: int)
    requires
        0 <= x,
        0 < c,
        e == 0x100 * c,
    ensures
        (x / c) / 0x100 == x / e,
{
    vstd::arithmetic::div_mod::lemma_div_denominator(x, c, 0x100);
    assert(c * 0x100 == e) by (nonlinear_arith)
        requires
            e == 0x100 * c,
    ;
}

/// Decoding the 32-byte big-endian encoding of a word gives the word back.
pub proof fn lemma_word_be_roundtrip(w: U256)
    ensures
        word_of_be(be_bytes(w)) == w,
{
    lemma_u64_digits(w.w3);
    lemma_u64_digits(w.w2);
    lemma_u64_digits(w.w1);
    lemma_u64_digits(w.w0);
    assert forall|j: int| 0 <= j < 32 implies be_bytes(w)[j] == be_byte(w, j) by {
    }
    assert(be_limb(be_bytes(w), 0) == w.w3);
    assert(be_limb(be_bytes(w), 8) == w.w2);
    assert(be_limb(be_bytes(w), 16) == w.w1);
    assert(be_limb(be_bytes(w), 24) == w.w0);
}

/// Writes a byte vector into a buffer at `off`, extending the buffer with
/// zeroes first when it is too short.
pub fn write_bytes_exec(mem: &mut Vec<u8>, off: usize, data: &Vec<u8>)
    requires
        off + data@.len() <= usize::MAX,
    ensures
        final(mem)@ == write_seq(old(mem)@, off as int, data@),
{
    let dlen: usize = data.len();
    let end: usize = off + dlen;
    while mem.len() < end
        invariant
            mem@.len() <= end || mem@.len() == old(mem)@.len(),
            old(mem)@.len() <= mem@.len(),
            end == off + dlen,
            forall|k: int| 0 <= k < old(mem)@.len() ==> mem@[k] == old(mem)@[k],
            forall|k: int| old(mem)@.len() <= k < mem@.len() ==> mem@[k] == 0u8,
        decreases end - mem@.len(),
    {
        mem.push(0u8);
    }
    let mut j: usize = 0;
    while j < dlen
        invariant
            0 <= j <= dlen,
            dlen == data@.len(),
            off + dlen <= mem@.len() <= usize::MAX,
            mem@.len() == if old(mem)@.len() >= off + dlen {
                old(mem)@.len() as int
            } else {
                off + dlen
            },
            forall|k: int|
                0 <= k < old(mem)@.len() && !(off <= k < off + dlen) ==> mem@[k] == old(mem)@[k],
            forall|k: int|
                old(mem)@.len() <= k < mem@.len() && !(off <= k < off + dlen) ==> mem@[k] == 0u8,
            forall|k: int| 0 <= k < j ==> mem@[off + k] == data@[k],
        decreases dlen - j,
    {
        let b = data[j];
        mem.set(off + j, b);
        j = j + 1;
    }
    proof {
        assert(mem@ =~= write_seq(old(mem)@, off as int, data@));
    }
}

/// Writes the 32-byte big-endian encoding of a word into a buffer at `off`,
/// extending the buffer with zeroes first when it is too short.
pub fn write_word_exec(mem: &mut Vec<u8>, off: usize, w: U256)
    requires
        off + 32 <= usize::MAX,
    ensures
        final(mem)@ == write_word(old(mem)@, off as int, w),
{
    let end: usize = off + 32;
    while mem.len() < end
        invariant
            mem@.len() <= end || mem@.len() == old(mem)@.len(),
            old(mem)@.len() <= mem@.len(),
            forall|k: int| 0 <= k < old(mem)@.len() ==> mem@[k] == old(mem)@[k],
            forall|k: int| old(mem)@.len() <= k < mem@.len() ==> mem@[k] == 0u8,
        decreases end - mem@.len(),
    {
        mem.push(0u8);
    }
    let bytes = word_to_be_bytes(w);
    let mut j: usize = 0;
    while j < 32
        invariant
            0 <= j <= 32,
            off + 32 <= mem@.len() <= usize::MAX,
            bytes@ == be_bytes(w),
            mem@.len() == if old(mem)@.len() >= off + 32 {
                old(mem)@.len() as int
            } else {
                off + 32
            },
            forall|k: int|
                0 <= k < old(mem)@.len() && !(off <= k < off + 32) ==> mem@[k] == old(mem)@[k],
            forall|k: int|
                old(mem)@.len() <= k < mem@.len() && !(off <= k < off + 32) ==> mem@[k] == 0u8,
            forall|k: int| 0 <= k < j ==> mem@[off + k] == be_byte(w, k),
        decreases 32 - j,
    {
        let b = bytes[j];
        mem.set(off + j, b);
        j = j + 1;
    }
    proof {
        assert(mem@ =~= write_word(old(mem)@, off as int, w));
    }
}

} // verus!
