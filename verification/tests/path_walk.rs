use mpt_core::branch::{BranchChildRow, BranchConfig, BranchInitRow};
use mpt_core::fp::Fp;
use mpt_core::key::KeyAccumulator;
use mpt_core::leaf::{LeafContext, LeafKeyConfig, TrieNodeRow};

const P: u128 = 0xffff_ffff_0000_0001;

fn r_val() -> Fp {
    Fp { v: 0x0b1e_55ed_0000_1234 }
}

fn key_bytes() -> Vec<u8> {
    vec![
        59, 138, 106, 70, 105, 186, 37, 13, 38, 205, 122, 69, 158, 202, 157, 33, 95, 131, 7, 227,
        58, 235, 229, 3, 121, 188, 90, 54, 23, 236, 52, 68,
    ]
}

fn direct_rlc(bytes: &[u8], r: u64) -> u64 {
    let mut rlc: u128 = 0;
    let mut mult: u128 = 1;
    for &b in bytes {
        rlc = (rlc + (b as u128) * mult) % P;
        mult = (mult * (r as u128)) % P;
    }
    rlc as u64
}

fn nil_child() -> BranchChildRow {
    let mut bytes = vec![128u8];
    bytes.resize(32, 0);
    BranchChildRow { rlp2: 0, bytes }
}

fn hash_child(seed: u8) -> BranchChildRow {
    let bytes: Vec<u8> = (0..32u8).map(|i| i.wrapping_mul(3).wrapping_add(seed)).collect();
    BranchChildRow { rlp2: 160, bytes }
}

fn children(m: usize, seed_m: u8, other: usize, seed_o: u8) -> Vec<BranchChildRow> {
    (0..16)
        .map(|i| {
            if i == m {
                hash_child(seed_m)
            } else if i == other {
                hash_child(seed_o)
            } else {
                nil_child()
            }
        })
        .collect()
}

fn init_row(modified: u8, ext: bool) -> BranchInitRow {
    let mut ext_flags = vec![0u8; 6];
    if ext {
        ext_flags[2] = 1;
    }
    BranchInitRow {
        is_placeholder_s: 0,
        is_placeholder_c: 0,
        is_not_hashed_s: 0,
        is_not_hashed_c: 0,
        ext_flags,
        modified_index: modified,
        drifted_index: 0,
        s_header: vec![248, 81, 0],
        c_header: vec![248, 81, 0],
    }
}

// Walks a two-level trie: a root branch consuming the key's first nibble,
// then an extension node consuming three more, then a branch consuming one,
// then a leaf with the remaining 59. The published branch contexts and the
// threaded accumulator must agree, and the leaf must reconstruct the key's
// direct RLC with the counter at exactly 64.
#[test]
fn path_walk_branches_extension_and_leaf() {
    let r = r_val();
    let bcfg = BranchConfig::configure(r);
    let lcfg = LeafKeyConfig::configure(r);
    let key = key_bytes();
    // Key nibbles: 3, 11, 8, 10, 6, 10, ...
    // Root branch: modified child 3.
    let s0 = children(3, 1, 9, 7);
    let c0 = children(3, 2, 9, 7);
    let ctx0 = bcfg
        .check_branch(&init_row(3, false), &s0, &c0, None, None)
        .unwrap();
    assert_eq!(ctx0.nibbles_counter, 1);
    assert!(ctx0.c16);
    let acc0 = KeyAccumulator::new_root();
    let acc1 = bcfg.branch_key_step(&acc0, 3, None).unwrap();
    assert_eq!(acc1.nibble_count, 1);

    // Extension node consuming nibbles 11, 8, 10 (odd count: marker byte
    // 16 + 11, then the full byte 0x8a), then a branch at nibble 6.
    let mut ext_bytes = vec![16u8 + 11, 0x8a];
    ext_bytes.resize(32, 0);
    let ext = TrieNodeRow {
        flag1: 0,
        flag2: 0,
        rlp1: 228,
        rlp2: 130,
        bytes: ext_bytes,
        c_rlp1: 0,
        c_rlp2: 0,
    };
    let s1 = children(6, 3, 12, 8);
    let c1 = children(6, 4, 12, 8);
    let ctx1 = bcfg
        .check_branch(
            &init_row(6, true),
            &s1,
            &c1,
            Some(&ext),
            Some(ctx0.nibbles_counter),
        )
        .unwrap();
    assert!(ctx1.is_extension);
    assert_eq!(ctx1.nibbles_counter, 5);
    assert!(ctx1.c16);
    let acc2 = bcfg.branch_key_step(&acc1, 6, Some(&ext)).unwrap();
    assert_eq!(acc2.nibble_count, 5);
    // The context records the parity at which this branch's own nibble
    // folded; the accumulator has moved past it to the complementary one.
    assert_eq!(acc2.c16, !ctx1.c16);

    // The leaf holds the remaining 59 nibbles: first byte 48 + 10, then the
    // key's bytes 3..31 as nibble pairs.
    let mut leaf_bytes = vec![48u8 + 10];
    leaf_bytes.extend_from_slice(&key[3..32]);
    let rlp2 = 128 + leaf_bytes.len() as u8;
    leaf_bytes.resize(32, 0);
    let row = TrieNodeRow {
        flag1: 0,
        flag2: 1,
        rlp1: 226,
        rlp2,
        bytes: leaf_bytes,
        c_rlp1: 0,
        c_rlp2: 0,
    };
    let expected = Fp { v: direct_rlc(&key, r.v) };
    let out = lcfg
        .check_leaf_key(&row, &LeafContext::Normal { acc: acc2 }, expected)
        .unwrap();
    assert_eq!(out.nibbles_contributed, 59);
    assert_eq!(ctx1.nibbles_counter + out.nibbles_contributed, 64);
    assert_eq!(out.key_rlc.v, expected.v);
}

// After a placeholder branch the leaf's start values come from the branch
// above the placeholder: the pre-drift leaf keeps its key RLC although a
// synthetic branch level sits between it and the root.
#[test]
fn path_walk_after_placeholder_uses_level_above() {
    let r = r_val();
    let bcfg = BranchConfig::configure(r);
    let lcfg = LeafKeyConfig::configure(r);
    let key = key_bytes();
    let acc1 = bcfg
        .branch_key_step(&KeyAccumulator::new_root(), 3, None)
        .unwrap();
    // The leaf below the placeholder holds nibbles 1..=63, exactly as it
    // did before the placeholder branch was inserted.
    let row = TrieNodeRow {
        flag1: 0,
        flag2: 1,
        rlp1: 226,
        rlp2: 160,
        bytes: key.clone(),
        c_rlp1: 0,
        c_rlp2: 0,
    };
    let expected = Fp { v: direct_rlc(&key, r.v) };
    let out = lcfg
        .check_leaf_key(
            &row,
            &LeafContext::AfterPlaceholder { acc: acc1 },
            expected,
        )
        .unwrap();
    assert_eq!(out.nibbles_contributed, 63);
    assert_eq!(out.key_rlc.v, expected.v);
}
