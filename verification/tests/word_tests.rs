use evm_actor::buffer::{word_from_be_bytes, word_to_be_bytes};
use evm_actor::word::U256;

fn w(x: u64) -> U256 {
    U256::from_u64(x)
}

#[test]
fn add_small_values() {
    let r = w(2).wrapping_add(w(40));
    assert_eq!(r, w(42));
}

#[test]
fn add_carries_across_limbs() {
    let a = U256 { w0: u64::MAX, w1: u64::MAX, w2: 0, w3: 0 };
    let r = a.wrapping_add(w(1));
    assert_eq!(r, U256 { w0: 0, w1: 0, w2: 1, w3: 0 });
}

#[test]
fn add_wraps_at_word_size() {
    let max = U256 { w0: u64::MAX, w1: u64::MAX, w2: u64::MAX, w3: u64::MAX };
    assert_eq!(max.wrapping_add(w(1)), U256::zero());
}

#[test]
fn mul_small_values() {
    assert_eq!(w(6).wrapping_mul(w(7)), w(42));
    assert_eq!(w(0).wrapping_mul(w(7)), w(0));
    assert_eq!(w(1).wrapping_mul(w(7)), w(7));
}

#[test]
fn mul_carries_across_limbs() {
    // (2^64 - 1)^2 = 2^128 - 2^65 + 1
    let a = U256 { w0: u64::MAX, w1: 0, w2: 0, w3: 0 };
    let r = a.wrapping_mul(a);
    assert_eq!(r, U256 { w0: 1, w1: 0xfffffffffffffffe, w2: 0, w3: 0 });
}

#[test]
fn mul_wraps_at_word_size() {
    // (2^128 + 1)^2 = 2^256 + 2^129 + 1, which wraps to 2^129 + 1
    let a = U256 { w0: 1, w1: 0, w2: 1, w3: 0 };
    let r = a.wrapping_mul(a);
    assert_eq!(r, U256 { w0: 1, w1: 0, w2: 2, w3: 0 });
}

#[test]
fn sub_small_values() {
    assert_eq!(w(42).wrapping_sub(w(2)), w(40));
}

#[test]
fn sub_wraps_below_zero() {
    let max = U256 { w0: u64::MAX, w1: u64::MAX, w2: u64::MAX, w3: u64::MAX };
    assert_eq!(U256::zero().wrapping_sub(w(1)), max);
}

#[test]
fn comparisons_use_the_whole_word() {
    let high = U256 { w0: 0, w1: 0, w2: 0, w3: 1 };
    let low = U256 { w0: u64::MAX, w1: u64::MAX, w2: u64::MAX, w3: 0 };
    assert!(low.lt(high));
    assert!(!high.lt(low));
    assert!(!high.lt(high));
}

#[test]
fn bitwise_operations_work_per_limb() {
    let a = U256 { w0: 0b1100, w1: 1, w2: 0, w3: 0 };
    let b = U256 { w0: 0b1010, w1: 3, w2: 0, w3: 0 };
    assert_eq!(a.bit_and(b), U256 { w0: 0b1000, w1: 1, w2: 0, w3: 0 });
    assert_eq!(a.bit_or(b), U256 { w0: 0b1110, w1: 3, w2: 0, w3: 0 });
    assert_eq!(a.bit_xor(b), U256 { w0: 0b0110, w1: 2, w2: 0, w3: 0 });
    assert_eq!(
        U256::zero().bit_not(),
        U256 { w0: u64::MAX, w1: u64::MAX, w2: u64::MAX, w3: u64::MAX }
    );
}

#[test]
fn is_zero_and_fits() {
    assert!(U256::zero().is_zero());
    assert!(!U256::one().is_zero());
    assert!(w(65536).fits_u64(65536));
    assert!(!w(65537).fits_u64(65536));
    let high = U256 { w0: 0, w1: 1, w2: 0, w3: 0 };
    assert!(!high.fits_u64(u64::MAX));
}

#[test]
fn big_endian_encoding_round_trips() {
    let a = U256 { w0: 0x0123456789abcdef, w1: 42, w2: 7, w3: 0x8000000000000000 };
    let bytes = word_to_be_bytes(a);
    assert_eq!(bytes.len(), 32);
    assert_eq!(bytes[0], 0x80);
    assert_eq!(bytes[31], 0xef);
    assert_eq!(bytes[30], 0xcd);
    assert_eq!(word_from_be_bytes(&bytes), a);
}

#[test]
fn big_endian_encoding_of_small_value() {
    let bytes = word_to_be_bytes(w(0x0102));
    let mut expected = vec![0u8; 32];
    expected[30] = 1;
    expected[31] = 2;
    assert_eq!(bytes, expected);
}
