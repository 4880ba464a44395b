//! Numeric codec behavior: word limb decomposition, byte encodings, and
//! conversions to words, scalars and addresses.

use zkevm_core::field::{Fp, Field, FR_MODULUS_LO, FR_MODULUS_HI};
use zkevm_core::word::{
    Word, Address, U64, ToWord, ToScalar, ToAddress, ToBigEndian, ToLittleEndian,
};

#[test]
fn word_limb_roundtrip() {
    let w = Word::from_limbs(0xdead_beef, 0x1234);
    let (lo, hi) = w.to_lo_hi();
    assert_eq!(lo, 0xdead_beef);
    assert_eq!(hi, 0x1234);
    assert_eq!(Word::from_limbs(lo, hi), w);
}

#[test]
fn word_decomposition_of_two_pow_128_plus_5() {
    // The value 2^128 + 5 has limbs lo = 5, hi = 1.
    let mut bytes = vec![0u8; 32];
    bytes[0] = 5;
    bytes[16] = 1;
    let w = Word::from_le_bytes(&bytes);
    let (lo, hi) = w.to_lo_hi();
    assert_eq!(lo, 5);
    assert_eq!(hi, 1);
}

#[test]
fn word_byte_encodings_are_mutually_reversed() {
    let w = Word::from_limbs(0x0102030405060708090a0b0c0d0e0f10, 0xfafb);
    let le = w.to_le_bytes();
    let be = w.to_be_bytes();
    assert_eq!(le.len(), 32);
    assert_eq!(be.len(), 32);
    let mut rev = be.clone();
    rev.reverse();
    assert_eq!(le, rev);
    assert_eq!(le[0], 0x10);
    assert_eq!(be[31], 0x10);
    assert_eq!(Word::from_le_bytes(&le), w);
    assert_eq!(Word::from_be_bytes(&be), w);
}

#[test]
fn word_to_scalar_below_modulus() {
    let w = Word::from_limbs(42, 0);
    let f = w.to_scalar().unwrap();
    assert_eq!(f, Fp::from_u64(42));
    // The scalar's canonical little-endian bytes equal the word's bytes.
    assert_eq!(f.to_repr(), w.to_le_bytes());
}

#[test]
fn word_to_scalar_at_and_above_modulus_is_none() {
    let modulus = Word::from_limbs(FR_MODULUS_LO, FR_MODULUS_HI);
    assert!(modulus.to_scalar().is_none());
    let above = Word::from_limbs(FR_MODULUS_LO, FR_MODULUS_HI + 1);
    assert!(above.to_scalar().is_none());
    let below = Word::from_limbs(FR_MODULUS_LO - 1, FR_MODULUS_HI);
    let f = below.to_scalar().unwrap();
    assert_eq!(f.lo, FR_MODULUS_LO - 1);
    assert_eq!(f.hi, FR_MODULUS_HI);
}

#[test]
fn word_to_address_takes_low_twenty_bytes() {
    let w = Word::from_limbs(0x1122334455667788_99aabbccddeeff00, 0xffee);
    let a = w.to_address();
    assert_eq!(a.bytes.len(), 20);
    // Low 20 bytes of the big-endian encoding.
    let be = w.to_be_bytes();
    assert_eq!(a.bytes.as_slice(), &be[12..]);
}

#[test]
fn address_roundtrip_through_word() {
    let a = Address { bytes: (1u8..=20u8).collect() };
    let w = a.to_word();
    let back = w.to_address();
    assert_eq!(back, a);
    // Zero-padded on the most-significant side.
    let be = w.to_be_bytes();
    assert_eq!(&be[..12], &[0u8; 12]);
    assert_eq!(&be[12..], a.bytes.as_slice());
}

#[test]
fn address_to_scalar_always_fits() {
    let a = Address { bytes: vec![0xff; 20] };
    let f = a.to_scalar().unwrap();
    // The top 12 bytes of the scalar are zero, the rest are the address.
    let repr = f.to_repr();
    assert_eq!(&repr[..20], &[0xff; 20][..]);
    assert_eq!(&repr[20..], &[0u8; 12][..]);
}

#[test]
fn hash_to_word_is_big_endian() {
    let mut digest = vec![0u8; 32];
    digest[31] = 7;
    let h = zkevm_core::word::Hash { bytes: digest };
    let w = h.to_word();
    assert_eq!(w.to_lo_hi(), (7, 0));
}

#[test]
fn small_integer_conversions() {
    assert_eq!(true.to_word(), Word::one());
    assert_eq!(false.to_word(), Word::zero());
    assert_eq!(7u64.to_word().to_lo_hi(), (7, 0));
    assert_eq!((1u128 << 100).to_word().to_lo_hi(), (1 << 100, 0));
    assert_eq!(9usize.to_word().to_lo_hi(), (9, 0));
    assert_eq!(U64(55).to_word().to_lo_hi(), (55, 0));
    let w = Word::from_limbs(3, 4);
    assert_eq!(w.to_word(), w);
    assert_eq!(true.to_scalar().unwrap(), Fp::from_u64(1));
    assert_eq!(false.to_scalar().unwrap(), Fp::from_u64(0));
    assert_eq!(11u64.to_scalar().unwrap(), Fp::from_u64(11));
    assert_eq!(13usize.to_scalar().unwrap(), Fp::from_u64(13));
}

#[test]
fn negative_i32_to_word_wraps_in_word_space() {
    // -1 maps to 2^256 - 1: all limbs saturated.
    let w = (-1i32).to_word();
    assert_eq!(w.to_lo_hi(), (u128::MAX, u128::MAX));
    // -2 maps to 2^256 - 2.
    let w2 = (-2i32).to_word();
    assert_eq!(w2.to_lo_hi(), (u128::MAX - 1, u128::MAX));
    // Positive values map directly, i32::MIN wraps without overflow.
    assert_eq!(5i32.to_word().to_lo_hi(), (5, 0));
    let wmin = i32::MIN.to_word();
    assert_eq!(wmin.to_lo_hi(), (u128::MAX - (1u128 << 31) + 1, u128::MAX));
}

#[test]
fn field_lower_bits() {
    let f = Fp { lo: 0xaabbccdd_00000000_00000000_11223344, hi: 0x77 };
    assert_eq!(f.get_lower_128(), f.lo);
    assert_eq!(f.get_lower_32(), 0x11223344);
}

#[test]
fn field_repr_roundtrip() {
    let f = Fp { lo: 123456789, hi: 42 };
    let repr = f.to_repr();
    assert_eq!(repr.len(), 32);
    let back = Fp::from_repr(&repr).unwrap();
    assert_eq!(back, f);
    // The representation of the modulus itself does not reduce uniquely.
    let modulus_bytes = Word::from_limbs(FR_MODULUS_LO, FR_MODULUS_HI).to_le_bytes();
    assert!(Fp::from_repr(&modulus_bytes).is_none());
}
