use mpt_core::classifier::LeafCase;
use mpt_core::fp::Fp;
use mpt_core::key::KeyAccumulator;
use mpt_core::drifted::LeafKeyInAddedBranchChip;
use mpt_core::leaf::TrieNodeRow;
use mpt_core::MptError;

const P: u128 = 0xffff_ffff_0000_0001;

fn r_val() -> Fp {
    Fp { v: 0x0b1e_55ed_0000_1234 }
}

fn key_bytes() -> Vec<u8> {
    vec![
        59, 138, 106, 70, 105, 186, 37, 13, 38, 205, 122, 69, 158, 202, 157, 33, 95, 131, 7, 227,
        58, 235, 229, 3, 121, 188, 90, 54, 23, 236, 52, 68,
    ]
}

fn direct_rlc(bytes: &[u8], r: u64) -> u64 {
    let mut rlc: u128 = 0;
    let mut mult: u128 = 1;
    for &b in bytes {
        rlc = (rlc + (b as u128) * mult) % P;
        mult = (mult * (r as u128)) % P;
    }
    rlc as u64
}

fn chip() -> LeafKeyInAddedBranchChip {
    let config = LeafKeyInAddedBranchChip::configure(r_val());
    LeafKeyInAddedBranchChip::construct(config)
}

// The leaf as it stands after drifting below the added root branch: the
// branch consumed nibble 3, the leaf keeps the other 63 nibbles.
fn drifted_row() -> TrieNodeRow {
    TrieNodeRow {
        flag1: 0,
        flag2: 1,
        rlp1: 226,
        rlp2: 160,
        bytes: key_bytes(),
        c_rlp1: 0,
        c_rlp2: 0,
    }
}

#[test]
fn drifted_chip_construct_keeps_config() {
    let config = LeafKeyInAddedBranchChip::configure(r_val());
    let chip = LeafKeyInAddedBranchChip::construct(config);
    assert_eq!(chip.config().r.v, r_val().v);
}

#[test]
fn drift_symmetry_insertion_at_root() {
    // Drift symmetry: leaf L held the whole key at the root; an insertion
    // turned it into a branch with L drifted one level down at position 3
    // (the key's first nibble). The drifted leaf's recomputed key RLC must
    // equal L's original key RLC.
    let original_key_rlc = Fp { v: direct_rlc(&key_bytes(), r_val().v) };
    let acc = KeyAccumulator::new_root();
    let got = chip()
        .check_drifted_leaf(&drifted_row(), &acc, 3, original_key_rlc)
        .unwrap();
    assert_eq!(got.v, original_key_rlc.v);
}

#[test]
fn drifted_wrong_position_breaks_continuity() {
    // At any other drifted position the recomputed key differs.
    let original_key_rlc = Fp { v: direct_rlc(&key_bytes(), r_val().v) };
    let acc = KeyAccumulator::new_root();
    let res = chip().check_drifted_leaf(&drifted_row(), &acc, 4, original_key_rlc);
    assert_eq!(res, Err(MptError::KeyContinuity));
}

#[test]
fn drifted_one_nibble_shape_rejected() {
    // A drifted leaf moved down one level from a position with at least two
    // remaining nibbles, so the one-nibble shape (both flags zero) is
    // malformed here.
    let mut row = drifted_row();
    row.flag1 = 0;
    row.flag2 = 0;
    let acc = KeyAccumulator::new_root();
    let res = chip().check_drifted_leaf(&row, &acc, 3, Fp { v: 1 });
    assert_eq!(res, Err(MptError::MalformedFlags));
}

#[test]
fn drifted_long_form_matches_short_form() {
    let key = key_bytes();
    let mut payload = vec![160u8];
    payload.extend_from_slice(&key[0..31]);
    let row = TrieNodeRow {
        flag1: 1,
        flag2: 0,
        rlp1: 248,
        rlp2: 67,
        bytes: payload,
        c_rlp1: key[31],
        c_rlp2: 0,
    };
    let original_key_rlc = Fp { v: direct_rlc(&key, r_val().v) };
    let acc = KeyAccumulator::new_root();
    let got = chip().check_drifted_leaf(&row, &acc, 3, original_key_rlc).unwrap();
    assert_eq!(got.v, original_key_rlc.v);
}

#[test]
fn drifted_long_needs_248() {
    let key = key_bytes();
    let mut payload = vec![160u8];
    payload.extend_from_slice(&key[0..31]);
    let row = TrieNodeRow {
        flag1: 1,
        flag2: 0,
        rlp1: 247,
        rlp2: 67,
        bytes: payload,
        c_rlp1: key[31],
        c_rlp2: 0,
    };
    let acc = KeyAccumulator::new_root();
    let res = chip().check_drifted_leaf(&row, &acc, 3, Fp { v: 1 });
    assert_eq!(res, Err(MptError::RlpPrefixMismatch));
}

#[test]
fn drift_symmetry_below_added_extension_branch() {
    // The added branch is an extension node: its key consumes nibbles 3,
    // 11, 8 of the key, its branch consumes nibble 10, and the drifted
    // leaf keeps the remaining 60 nibbles. The recomputed key RLC must
    // still equal the pre-drift leaf's.
    let key = key_bytes();
    let nib3 = 10u8;
    // Fold the extension key's nibbles into the accumulator by hand.
    let ext_nibs = vec![3u8, 11, 8];
    let acc = mpt_core::key::key_fold_nibbles(
        &KeyAccumulator::new_root(),
        &ext_nibs,
        r_val(),
    )
    .unwrap();
    // 60 remaining nibbles at even parity: marker byte 32, then the key's
    // bytes 2..31 as nibble pairs.
    let mut bytes = vec![32u8];
    bytes.extend_from_slice(&key[2..32]);
    let rlp2 = 128 + bytes.len() as u8;
    bytes.resize(32, 0);
    let row = TrieNodeRow {
        flag1: 0,
        flag2: 1,
        rlp1: 226,
        rlp2,
        bytes,
        c_rlp1: 0,
        c_rlp2: 0,
    };
    let original_key_rlc = Fp { v: direct_rlc(&key, r_val().v) };
    let got = chip().check_drifted_leaf(&row, &acc, nib3, original_key_rlc).unwrap();
    assert_eq!(got.v, original_key_rlc.v);
}

#[test]
fn drifted_preimage_folds_key_and_value_rows() {
    // The hash preimage is the key row's bytes followed by the value row's
    // bytes, at consecutive multiplier positions.
    let value_row = TrieNodeRow {
        flag1: 0,
        flag2: 0,
        rlp1: 17,
        rlp2: 0,
        bytes: vec![0u8; 32],
        c_rlp1: 0,
        c_rlp2: 0,
    };
    let row = TrieNodeRow {
        flag1: 1,
        flag2: 1,
        rlp1: 194,
        rlp2: 32,
        bytes: vec![0u8; 32],
        c_rlp1: 0,
        c_rlp2: 0,
    };
    let res = chip().drifted_preimage_rlc(&row, LeafCase::LastLevel, &value_row);
    let mut flat = vec![194u8, 32, 17, 0];
    flat.extend_from_slice(&[0u8; 32]);
    assert_eq!(res.rlc.v, direct_rlc(&flat, r_val().v));
}

#[test]
fn drifted_preimage_short_is_the_rlp_byte_string() {
    // Short leaf [226, 160, <32 key bytes>] with the one-byte value 17:
    // the preimage RLC must equal the RLC of the leaf's RLP encoding
    // [226, 160, key..., 17], the value byte entering right after the key
    // at r^34 (the value row's trailing zeros add nothing).
    let key = key_bytes();
    let row = drifted_row();
    let value_row = TrieNodeRow {
        flag1: 0,
        flag2: 0,
        rlp1: 17,
        rlp2: 0,
        bytes: vec![0u8; 32],
        c_rlp1: 0,
        c_rlp2: 0,
    };
    let res = chip().drifted_preimage_rlc(&row, LeafCase::Short, &value_row);
    let mut flat = vec![226u8, 160];
    flat.extend_from_slice(&key);
    flat.push(17);
    assert_eq!(res.rlc.v, direct_rlc(&flat, r_val().v));
}

#[test]
fn drifted_preimage_long_is_the_rlp_byte_string() {
    // Long leaf [248, 67, 160, <32 key bytes>] with a 32-byte value behind
    // the value row's RLP bytes [161, 160]: the preimage RLC must equal
    // the RLC of the full 72-byte RLP string, the value row entering at
    // r^35.
    let key = key_bytes();
    let mut payload = vec![160u8];
    payload.extend_from_slice(&key[0..31]);
    let row = TrieNodeRow {
        flag1: 1,
        flag2: 0,
        rlp1: 248,
        rlp2: 67,
        bytes: payload,
        c_rlp1: key[31],
        c_rlp2: 0,
    };
    let value: Vec<u8> = (0..32u8).map(|i| i.wrapping_mul(11).wrapping_add(5)).collect();
    let value_row = TrieNodeRow {
        flag1: 0,
        flag2: 0,
        rlp1: 161,
        rlp2: 160,
        bytes: value.clone(),
        c_rlp1: 0,
        c_rlp2: 0,
    };
    let res = chip().drifted_preimage_rlc(&row, LeafCase::Long, &value_row);
    let mut flat = vec![248u8, 67, 160];
    flat.extend_from_slice(&key);
    flat.push(161);
    flat.push(160);
    flat.extend_from_slice(&value);
    assert_eq!(res.rlc.v, direct_rlc(&flat, r_val().v));
}

#[test]
fn drifted_preimage_depends_on_key_length() {
    // Two short rows with different key lengths must continue their value
    // rows at different multipliers: the same value byte lands at r^4
    // after a 2-byte key and at r^5 after a 3-byte key.
    let mut bytes2 = vec![32u8, 0xab];
    bytes2.resize(32, 0);
    let row2 = TrieNodeRow {
        flag1: 0,
        flag2: 1,
        rlp1: 196,
        rlp2: 130,
        bytes: bytes2,
        c_rlp1: 0,
        c_rlp2: 0,
    };
    let mut bytes3 = vec![32u8, 0xab, 0xcd];
    bytes3.resize(32, 0);
    let row3 = TrieNodeRow {
        flag1: 0,
        flag2: 1,
        rlp1: 197,
        rlp2: 131,
        bytes: bytes3,
        c_rlp1: 0,
        c_rlp2: 0,
    };
    let value_row = TrieNodeRow {
        flag1: 0,
        flag2: 0,
        rlp1: 17,
        rlp2: 0,
        bytes: vec![0u8; 32],
        c_rlp1: 0,
        c_rlp2: 0,
    };
    let c = chip();
    let p2 = c.drifted_preimage_rlc(&row2, LeafCase::Short, &value_row);
    let p3 = c.drifted_preimage_rlc(&row3, LeafCase::Short, &value_row);
    assert_eq!(p2.rlc.v, direct_rlc(&[196, 130, 32, 0xab, 17], r_val().v));
    assert_eq!(p3.rlc.v, direct_rlc(&[197, 131, 32, 0xab, 0xcd, 17], r_val().v));
    // The multipliers of the two preimages differ by one power of r: the
    // longer key shifts everything after it one position further.
    let shifted = ((p2.mult.v as u128) * (r_val().v as u128) % P) as u64;
    assert_eq!(p3.mult.v, shifted);
}

#[test]
fn drifted_hash_linkage_checks_recorded_hash() {
    let c = chip();
    assert_eq!(c.check_drifted_hash(Fp { v: 77 }, Fp { v: 77 }), Ok(()));
    assert_eq!(
        c.check_drifted_hash(Fp { v: 77 }, Fp { v: 78 }),
        Err(MptError::HashLinkage)
    );
}
