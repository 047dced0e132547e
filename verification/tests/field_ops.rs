use mpt_core::fp::{Fp, FIELD_MODULUS};
use mpt_core::key::{
    key_fold_nibbles, nibbles_of_range, KeyAccumulator, RlcAcc,
};

#[test]
fn field_addition_wraps_at_modulus() {
    let a = Fp { v: FIELD_MODULUS - 1 };
    let b = Fp { v: 1 };
    assert_eq!(a.add(b).v, 0);
    assert_eq!(Fp { v: 5 }.add(Fp { v: 7 }).v, 12);
}

#[test]
fn field_multiplication_wraps_at_modulus() {
    let a = Fp { v: FIELD_MODULUS - 1 };
    assert_eq!(a.mul(Fp { v: 2 }).v, FIELD_MODULUS - 2);
    assert_eq!(Fp { v: 5 }.mul(Fp { v: 7 }).v, 35);
}

#[test]
fn field_from_u64_reduces() {
    assert_eq!(Fp::from_u64(FIELD_MODULUS).v, 0);
    assert_eq!(Fp::from_u64(123).v, 123);
    assert_eq!(Fp::zero().v, 0);
    assert_eq!(Fp::one().v, 1);
}

#[test]
fn rlc_folds_bytes_at_consecutive_powers() {
    // bytes [2, 3] at randomness 10: 2 + 3 * 10 = 32, multiplier 100.
    let r = Fp { v: 10 };
    let st = RlcAcc::start().push_byte(2, r).push_byte(3, r);
    assert_eq!(st.rlc.v, 32);
    assert_eq!(st.mult.v, 100);
}

#[test]
fn two_nibbles_fold_like_their_byte() {
    // Nibble conservation of the encoding: folding the high and low
    // nibbles of 0x3b gives the byte itself at the byte position.
    let r = Fp { v: 10 };
    let bytes: Vec<u8> = vec![0x3b];
    let nibs = nibbles_of_range(&bytes, 0, 1);
    assert_eq!(nibs, vec![3u8, 11]);
    let acc = key_fold_nibbles(&KeyAccumulator::new_root(), &nibs, r).unwrap();
    assert_eq!(acc.rlc.v, 0x3b);
    assert_eq!(acc.mult.v, 10);
    assert_eq!(acc.nibble_count, 2);
    assert!(acc.c16);
}

#[test]
fn nibble_fold_rejects_past_64() {
    let r = Fp { v: 10 };
    let bytes: Vec<u8> = (0..33u8).collect();
    let nibs = nibbles_of_range(&bytes, 0, 33);
    assert_eq!(nibs.len(), 66);
    let res = key_fold_nibbles(&KeyAccumulator::new_root(), &nibs, r);
    assert!(res.is_err());
}
