use mpt_core::branch::{ext_key_nibbles, BranchChildRow, BranchConfig, BranchInitRow};
use mpt_core::drifted::PlaceholderSide;
use mpt_core::fp::Fp;
use mpt_core::key::{key_step_nibble, KeyAccumulator};
use mpt_core::leaf::TrieNodeRow;
use mpt_core::MptError;

const P: u128 = 0xffff_ffff_0000_0001;

fn r_val() -> Fp {
    Fp { v: 0x0b1e_55ed_0000_1234 }
}

fn direct_rlc(bytes: &[u8], r: u64) -> u64 {
    let mut rlc: u128 = 0;
    let mut mult: u128 = 1;
    for &b in bytes {
        rlc = (rlc + (b as u128) * mult) % P;
        mult = (mult * (r as u128)) % P;
    }
    rlc as u64
}

fn nil_child() -> BranchChildRow {
    let mut bytes = vec![128u8];
    bytes.resize(32, 0);
    BranchChildRow { rlp2: 0, bytes }
}

fn hash_child(seed: u8) -> BranchChildRow {
    let bytes: Vec<u8> = (0..32u8).map(|i| i.wrapping_mul(7).wrapping_add(seed)).collect();
    BranchChildRow { rlp2: 160, bytes }
}

// A branch with hashed children at positions 5 and 11 and nil elsewhere:
// 2 * 33 + 14 * 1 = 80 payload bytes, plus one byte for the value node,
// gives the header [248, 81].
fn children(seed5: u8, seed11: u8) -> Vec<BranchChildRow> {
    (0..16)
        .map(|i| {
            if i == 5 {
                hash_child(seed5)
            } else if i == 11 {
                hash_child(seed11)
            } else {
                nil_child()
            }
        })
        .collect()
}

fn init_row() -> BranchInitRow {
    BranchInitRow {
        is_placeholder_s: 0,
        is_placeholder_c: 0,
        is_not_hashed_s: 0,
        is_not_hashed_c: 0,
        ext_flags: vec![0; 6],
        modified_index: 5,
        drifted_index: 0,
        s_header: vec![248, 81, 0],
        c_header: vec![248, 81, 0],
    }
}

#[test]
fn branch_regular_publishes_context() {
    let cfg = BranchConfig::configure(r_val());
    let s = children(1, 2);
    let c = children(9, 2);
    let ctx = cfg.check_branch(&init_row(), &s, &c, None, None).unwrap();
    assert!(!ctx.is_extension);
    assert_eq!(ctx.placeholder, PlaceholderSide::Neither);
    assert_eq!(ctx.modified_index, 5);
    // Without a placeholder the drifted index defaults to the modified one.
    assert_eq!(ctx.drifted_index, 5);
    assert!(ctx.c16);
    assert_eq!(ctx.nibbles_counter, 1);
    assert_eq!(ctx.mod_node_hash_rlc_s.v, direct_rlc(&s[5].bytes, r_val().v));
    assert_eq!(ctx.mod_node_hash_rlc_c.v, direct_rlc(&c[5].bytes, r_val().v));
}

#[test]
fn branch_second_difference_rejected() {
    // Single-diff law: the S and C sides may differ only at the modified
    // position; mutating a second child must reject.
    let cfg = BranchConfig::configure(r_val());
    let s = children(1, 2);
    let mut c = children(9, 2);
    c[11].bytes[0] ^= 1;
    let res = cfg.check_branch(&init_row(), &s, &c, None, None);
    assert_eq!(res, Err(MptError::BranchInvariant));
}

#[test]
fn branch_length_bookkeeping_must_end_at_one() {
    let cfg = BranchConfig::configure(r_val());
    let s = children(1, 2);
    let c = children(9, 2);
    let mut init = init_row();
    init.s_header = vec![248, 82, 0];
    let res = cfg.check_branch(&init, &s, &c, None, None);
    assert_eq!(res, Err(MptError::BranchInvariant));
}

#[test]
fn branch_header_byte_out_of_range_rejected() {
    let cfg = BranchConfig::configure(r_val());
    let s = children(1, 2);
    let c = children(9, 2);
    let mut init = init_row();
    init.c_header = vec![250, 81, 0];
    let res = cfg.check_branch(&init, &s, &c, None, None);
    assert_eq!(res, Err(MptError::RlpPrefixMismatch));
}

#[test]
fn branch_non_boolean_flag_rejected() {
    let cfg = BranchConfig::configure(r_val());
    let s = children(1, 2);
    let c = children(9, 2);
    let mut init = init_row();
    init.is_placeholder_s = 2;
    let res = cfg.check_branch(&init, &s, &c, None, None);
    assert_eq!(res, Err(MptError::MalformedFlags));
}

#[test]
fn branch_both_placeholders_rejected() {
    let cfg = BranchConfig::configure(r_val());
    let s = children(1, 2);
    let c = children(9, 2);
    let mut init = init_row();
    init.is_placeholder_s = 1;
    init.is_placeholder_c = 1;
    let res = cfg.check_branch(&init, &s, &c, None, None);
    assert_eq!(res, Err(MptError::BranchInvariant));
}

#[test]
fn branch_placeholder_needs_exactly_two_non_nil() {
    // With a placeholder in S, the branch must hold exactly two non-nil
    // children (the new leaf and the drifted one): the rlp2 bytes sum to
    // 2 * 160.
    let cfg = BranchConfig::configure(r_val());
    let s = children(1, 2);
    let c = children(1, 2);
    let mut init = init_row();
    init.is_placeholder_s = 1;
    init.drifted_index = 11;
    let ctx = cfg.check_branch(&init, &s, &c, None, None).unwrap();
    assert_eq!(ctx.placeholder, PlaceholderSide::S);
    assert_eq!(ctx.drifted_index, 11);
    // The placeholder side records the drifted child's hash from the C side.
    assert_eq!(ctx.mod_node_hash_rlc_s.v, direct_rlc(&c[11].bytes, r_val().v));

    // A third non-nil child must reject.
    let mut s3: Vec<BranchChildRow> = children(1, 2);
    s3[7] = hash_child(3);
    let mut c3: Vec<BranchChildRow> = children(1, 2);
    c3[7] = hash_child(3);
    let mut init3 = init_row();
    init3.is_placeholder_s = 1;
    init3.drifted_index = 11;
    init3.s_header = vec![248, 113, 0];
    init3.c_header = vec![248, 113, 0];
    let res = cfg.check_branch(&init3, &s3, &c3, None, None);
    assert_eq!(res, Err(MptError::BranchInvariant));
}

#[test]
fn branch_extension_counts_its_nibbles() {
    // An extension node with a single nibble: the counter advances by the
    // extension's nibble and the branch's own one.
    let cfg = BranchConfig::configure(r_val());
    let s = children(1, 2);
    let c = children(9, 2);
    let mut init = init_row();
    init.ext_flags = vec![1, 0, 0, 0, 0, 0];
    let ext = TrieNodeRow {
        flag1: 0,
        flag2: 0,
        rlp1: 226,
        rlp2: 16 + 9,
        bytes: vec![0u8; 32],
        c_rlp1: 0,
        c_rlp2: 0,
    };
    let ctx = cfg.check_branch(&init, &s, &c, Some(&ext), Some(3)).unwrap();
    assert!(ctx.is_extension);
    assert_eq!(ctx.nibbles_counter, 5);
    // 3 + 1 extension nibbles consumed: the branch nibble sits at an even
    // position, so it folds at the high half.
    assert!(ctx.c16);
}

#[test]
fn branch_extension_flag_and_row_must_agree() {
    let cfg = BranchConfig::configure(r_val());
    let s = children(1, 2);
    let c = children(9, 2);
    let mut init = init_row();
    init.ext_flags = vec![1, 0, 0, 0, 0, 0];
    let res = cfg.check_branch(&init, &s, &c, None, None);
    assert_eq!(res, Err(MptError::BranchInvariant));
}

#[test]
fn branch_counter_cannot_pass_64() {
    let cfg = BranchConfig::configure(r_val());
    let s = children(1, 2);
    let c = children(9, 2);
    let res = cfg.check_branch(&init_row(), &s, &c, None, Some(64));
    assert_eq!(res, Err(MptError::NibbleCount));
    let ctx = cfg.check_branch(&init_row(), &s, &c, None, Some(63)).unwrap();
    assert_eq!(ctx.nibbles_counter, 64);
}

#[test]
fn ext_key_single_nibble() {
    let ext = TrieNodeRow {
        flag1: 0,
        flag2: 0,
        rlp1: 226,
        rlp2: 16 + 9,
        bytes: vec![0u8; 32],
        c_rlp1: 0,
        c_rlp2: 0,
    };
    let nibs = ext_key_nibbles(&ext).unwrap();
    assert_eq!(nibs, vec![9u8]);
}

#[test]
fn ext_key_even_pairs() {
    // Length byte 130 announces two key bytes: the even marker 0 and one
    // byte holding two nibbles.
    let mut bytes = vec![0u8, 0xab];
    bytes.resize(32, 0);
    let ext = TrieNodeRow {
        flag1: 0,
        flag2: 0,
        rlp1: 228,
        rlp2: 130,
        bytes,
        c_rlp1: 0,
        c_rlp2: 0,
    };
    let nibs = ext_key_nibbles(&ext).unwrap();
    assert_eq!(nibs, vec![10u8, 11u8]);
}

#[test]
fn ext_key_odd_marker() {
    // Length byte 130: the first key byte is 16 + 5, then one full byte.
    let mut bytes = vec![16u8 + 5, 0x2c];
    bytes.resize(32, 0);
    let ext = TrieNodeRow {
        flag1: 0,
        flag2: 0,
        rlp1: 228,
        rlp2: 130,
        bytes,
        c_rlp1: 0,
        c_rlp2: 0,
    };
    let nibs = ext_key_nibbles(&ext).unwrap();
    assert_eq!(nibs, vec![5u8, 2, 12]);
}

#[test]
fn ext_key_bad_marker_rejected() {
    let mut bytes = vec![40u8, 0x2c];
    bytes.resize(32, 0);
    let ext = TrieNodeRow {
        flag1: 0,
        flag2: 0,
        rlp1: 228,
        rlp2: 130,
        bytes,
        c_rlp1: 0,
        c_rlp2: 0,
    };
    let res = ext_key_nibbles(&ext);
    assert_eq!(res, Err(MptError::RlpPrefixMismatch));
}

#[test]
fn branch_key_step_matches_single_nibble_step() {
    let cfg = BranchConfig::configure(r_val());
    let acc = KeyAccumulator::new_root();
    let via_branch = cfg.branch_key_step(&acc, 3, None).unwrap();
    let via_step = key_step_nibble(&acc, 3, r_val()).unwrap();
    assert_eq!(via_branch, via_step);
}

#[test]
fn branch_side_rlc_all_nil() {
    // A branch of sixteen nil children: header byte 209 (192 + 17), then
    // sixteen 128 bytes.
    let cfg = BranchConfig::configure(r_val());
    let cs: Vec<BranchChildRow> = (0..16).map(|_| nil_child()).collect();
    let header = vec![209u8, 0, 0];
    let res = cfg.branch_side_rlc(&header, &cs);
    let mut flat = vec![209u8];
    flat.resize(17, 128);
    assert_eq!(res.rlc.v, direct_rlc(&flat, r_val().v));
}

#[test]
fn branch_parent_linkage_checks_hash() {
    let cfg = BranchConfig::configure(r_val());
    assert_eq!(cfg.check_branch_in_parent(Fp { v: 4 }, Fp { v: 4 }), Ok(()));
    assert_eq!(
        cfg.check_branch_in_parent(Fp { v: 4 }, Fp { v: 5 }),
        Err(MptError::HashLinkage)
    );
}
