//! The branch structural engine. A branch occupies an init row followed by
//! sixteen child rows (and, for an extension node, the extension key row).
//! Per branch the engine checks the boolean flags of the init row, the
//! RLP byte-length bookkeeping across the sixteen children, the S/C
//! equality of the children outside the modified position (exactly one
//! child may change between the before and after states), the two-non-nil
//! shape of the branch parallel to a placeholder, and the nibble-counter
//! increment; it publishes the per-branch context the leaf engines consume.
//!
//! The per-row helper markers that only the value and account engines
//! consume — the empty-node markers for the modified child and the
//! placeholder-leaf flags — belong to those engines and are not modelled
//! here.

use vstd::prelude::*;
use crate::drifted::PlaceholderSide;
use crate::fp::Fp;
use crate::key::{
    append_all, bytes_to_nibs, key_fold_nibbles, key_step_nibble, nib_fold, nib_step,
    nibbles_of_range, rlc_fold, rlc_step, KeyAccumulator, RlcAcc, RlcState,
};
use crate::leaf::TrieNodeRow;
use crate::MptError;

verus! {

/// The number of children of a branch.
pub const ARITY: usize = 16;

/// One branch-child row: the second RLP byte (0 for a nil or inline child,
/// 160 for a 32-byte hash) and the 32-byte payload.
#[derive(Clone, Debug)]
pub struct BranchChildRow {
    pub rlp2: u8,
    pub bytes: Vec<u8>,
}

impl BranchChildRow {
    /// Validity: the payload region is exactly 32 bytes wide.
    pub open spec fn wf(self) -> bool {
        self.bytes@.len() == 32
    }
}

/// The branch-init row: the structural flags and indices stored once per
/// branch, and the three leading RLP header bytes of each side.
#[derive(Clone, Debug)]
pub struct BranchInitRow {
    pub is_placeholder_s: u8,
    pub is_placeholder_c: u8,
    pub is_not_hashed_s: u8,
    pub is_not_hashed_c: u8,
    /// The six extension-node kind flags; at most one may be set.
    pub ext_flags: Vec<u8>,
    pub modified_index: u8,
    pub drifted_index: u8,
    pub s_header: Vec<u8>,
    pub c_header: Vec<u8>,
}

impl BranchInitRow {
    /// Validity: six extension flags and three header bytes per side.
    pub open spec fn wf(self) -> bool {
        self.ext_flags@.len() == 6 && self.s_header@.len() == 3 && self.c_header@.len() == 3
    }
}

/// Per-branch static facts computed once per branch-init row and consumed
/// by the sixteen children and the leaf rows below.
#[derive(Clone, Copy, Debug, PartialEq, Eq, Structural)]
pub struct BranchContext {
    /// Whether an extension node precedes the branch.
    pub is_extension: bool,
    /// Which side, if any, is a placeholder branch.
    pub placeholder: PlaceholderSide,
    /// The child position that differs between the S and C states.
    pub modified_index: u8,
    /// The position a displaced leaf drifted to; equals `modified_index`
    /// when there is no placeholder.
    pub drifted_index: u8,
    /// Whether this branch's nibble folds into the key at the high (times
    /// 16) position.
    pub c16: bool,
    /// The total nibbles consumed through this branch.
    pub nibbles_counter: u64,
    /// RLC of the hash recorded for the modified (or drifted) child, S side.
    pub mod_node_hash_rlc_s: Fp,
    /// RLC of the hash recorded for the modified (or drifted) child, C side.
    pub mod_node_hash_rlc_c: Fp,
}

/// Whether a flag byte is boolean.
pub open spec fn flag_bool(x: u8) -> bool {
    x <= 1
}

/// The sum of the six extension-kind flags.
pub open spec fn ext_flag_sum(init: BranchInitRow) -> int {
    init.ext_flags@[0] + init.ext_flags@[1] + init.ext_flags@[2] + init.ext_flags@[3]
        + init.ext_flags@[4] + init.ext_flags@[5]
}

/// All flags of the init row are boolean and at most one extension kind is
/// set.
pub open spec fn init_flags_ok(init: BranchInitRow) -> bool {
    &&& flag_bool(init.is_placeholder_s)
    &&& flag_bool(init.is_placeholder_c)
    &&& flag_bool(init.is_not_hashed_s)
    &&& flag_bool(init.is_not_hashed_c)
    &&& flag_bool(init.ext_flags@[0])
    &&& flag_bool(init.ext_flags@[1])
    &&& flag_bool(init.ext_flags@[2])
    &&& flag_bool(init.ext_flags@[3])
    &&& flag_bool(init.ext_flags@[4])
    &&& flag_bool(init.ext_flags@[5])
    &&& ext_flag_sum(init) <= 1
}

/// The RLP bytes a child occupies inside its branch: 33 for a hashed child
/// (160 and the hash), 1 for a nil child (the single byte 128), one plus
/// the payload length for a short inline child; any other shape is invalid.
pub open spec fn child_num_bytes_spec(c: BranchChildRow) -> Result<int, MptError> {
    if c.rlp2 == 160 {
        Ok(33)
    } else if c.rlp2 == 0 && c.bytes@[0] == 128 {
        Ok(1)
    } else if c.rlp2 == 0 && 192 < c.bytes@[0] <= 223 {
        Ok(1 + (c.bytes@[0] - 192))
    } else {
        Err(MptError::BranchInvariant)
    }
}

/// A child row has one of the three valid shapes: hashed, nil, or a short
/// inline node fitting the payload region.
pub open spec fn child_shape_ok(c: BranchChildRow) -> bool {
    child_num_bytes_spec(c) is Ok
}

/// The byte count the RLP list header of a branch side announces: a
/// two-byte length after 249, a one-byte length after 248, or a short
/// length folded into the first byte.
pub open spec fn header_rem_spec(h: Seq<u8>) -> Result<int, MptError> {
    if h[0] == 249 {
        Ok(h[1] * 256 + h[2])
    } else if h[0] == 248 {
        Ok(h[1] as int)
    } else if 192 <= h[0] < 248 {
        Ok(h[0] - 192)
    } else {
        Err(MptError::RlpPrefixMismatch)
    }
}

/// Folds the byte lengths of the children out of the remaining-length
/// counter, left to right.
pub open spec fn fold_child_lengths(rem: int, cs: Seq<BranchChildRow>) -> Result<int, MptError>
    decreases cs.len(),
{
    if cs.len() == 0 {
        Ok(rem)
    } else {
        match child_num_bytes_spec(cs.first()) {
            Err(e) => Err(e),
            Ok(n) => fold_child_lengths(rem - n, cs.drop_first()),
        }
    }
}

/// The RLP length bookkeeping of one branch side: after the sixteen
/// children exactly one byte must remain, reserved for the branch's
/// implicit value node.
pub open spec fn side_lengths_model(header: Seq<u8>, cs: Seq<BranchChildRow>) -> Result<
    (),
    MptError,
> {
    match header_rem_spec(header) {
        Err(e) => Err(e),
        Ok(rem) => match fold_child_lengths(rem, cs) {
            Err(e) => Err(e),
            Ok(fin) => if fin == 1 {
                Ok(())
            } else {
                Err(MptError::BranchInvariant)
            },
        },
    }
}

/// A successful length fold visits every child, so each child must have
/// one of the three valid shapes.
proof fn lemma_fold_lengths_gives_shapes(rem: int, cs: Seq<BranchChildRow>)
    requires
        fold_child_lengths(rem, cs) is Ok,
    ensures
        forall|j: int| 0 <= j < cs.len() ==> child_shape_ok(#[trigger] cs[j]),
    decreases cs.len(),
{
    if cs.len() != 0 {
        let n = child_num_bytes_spec(cs.first())->Ok_0;
        lemma_fold_lengths_gives_shapes(rem - n, cs.drop_first());
        assert forall|j: int| 0 <= j < cs.len() implies child_shape_ok(#[trigger] cs[j]) by {
            if j > 0 {
                assert(cs.drop_first()[j - 1] == cs[j]);
            }
        }
    }
}

/// Accepted length bookkeeping certifies the shape of every child: when
/// `side_lengths_model` returns Ok, each child is hashed, nil, or a short
/// inline node — which is what `branch_side_rlc` asks of its children.
pub proof fn lemma_side_lengths_gives_shapes(header: Seq<u8>, cs: Seq<BranchChildRow>)
    requires
        side_lengths_model(header, cs) is Ok,
    ensures
        forall|j: int| 0 <= j < cs.len() ==> child_shape_ok(#[trigger] cs[j]),
{
    let rem = header_rem_spec(header)->Ok_0;
    lemma_fold_lengths_gives_shapes(rem, cs);
}

/// The S-side and C-side children agree byte for byte at every position
/// other than the modified one.
pub open spec fn sc_equal_outside(
    s: Seq<BranchChildRow>,
    c: Seq<BranchChildRow>,
    m: int,
) -> bool {
    forall|j: int|
        0 <= j < 16 && j != m ==> s[j].rlp2 == c[j].rlp2 && s[j].bytes@ == c[j].bytes@
}

/// The sum of the children's second RLP bytes: 160 per non-nil child, 0
/// per nil child, so a branch with exactly two non-nil children sums to
/// 320.
pub open spec fn sum_rlp2(cs: Seq<BranchChildRow>) -> int
    decreases cs.len(),
{
    if cs.len() == 0 {
        0
    } else {
        cs.first().rlp2 + sum_rlp2(cs.drop_first())
    }
}

/// The RLC of a child's 32-byte payload, as recorded in the branch's
/// modified-node hash cells.
pub open spec fn child_hash_rlc_spec(c: BranchChildRow, r: int) -> int {
    rlc_fold(RlcState { rlc: 0, mult: 1 }, c.bytes@, r).rlc
}

/// The nibbles an extension-node key row encodes. A single nibble is
/// packed into the second RLP byte; longer keys carry a length byte, then
/// an even/odd marker byte (0, or 16 plus the first nibble), then full
/// bytes of two nibbles each. The length byte sits one position later when
/// the extension node's RLP is long.
pub open spec fn ext_key_nibs_model(row: TrieNodeRow) -> Result<Seq<u8>, MptError> {
    if row.rlp2 <= 32 {
        if 16 <= row.rlp2 < 32 {
            Ok(seq![(row.rlp2 - 16) as u8])
        } else {
            Err(MptError::RlpPrefixMismatch)
        }
    } else if row.rlp1 < 248 {
        let len = row.rlp2 - 128;
        if !(2 <= len <= 32) {
            Err(MptError::RlpPrefixMismatch)
        } else if row.bytes@[0] == 0 {
            Ok(bytes_to_nibs(row.bytes@.subrange(1, len as int)))
        } else if 16 <= row.bytes@[0] < 32 {
            Ok(seq![(row.bytes@[0] - 16) as u8] + bytes_to_nibs(row.bytes@.subrange(1, len as int)))
        } else {
            Err(MptError::RlpPrefixMismatch)
        }
    } else {
        let len = row.bytes@[0] - 128;
        if !(2 <= len <= 31) {
            Err(MptError::RlpPrefixMismatch)
        } else if row.bytes@[1] == 0 {
            Ok(bytes_to_nibs(row.bytes@.subrange(2, 1 + len as int)))
        } else if 16 <= row.bytes@[1] < 32 {
            Ok(
                seq![(row.bytes@[1] - 16) as u8] + bytes_to_nibs(
                    row.bytes@.subrange(2, 1 + len as int),
                ),
            )
        } else {
            Err(MptError::RlpPrefixMismatch)
        }
    }
}

/// Parses the nibble sequence of an extension-node key row.
pub fn ext_key_nibbles(row: &TrieNodeRow) -> (res: Result<Vec<u8>, MptError>)
    requires
        row.wf(),
    ensures
        match res {
            Ok(v) => ext_key_nibs_model(*row) == Ok::<Seq<u8>, MptError>(v@) && (forall|i: int|
                0 <= i < v@.len() ==> v@[i] < 16) && v@.len() <= 63,
            Err(e) => ext_key_nibs_model(*row) == Err::<Seq<u8>, MptError>(e),
        },
{
    if row.rlp2 <= 32 {
        if 16 <= row.rlp2 && row.rlp2 < 32 {
            let mut v: Vec<u8> = Vec::new();
            v.push(row.rlp2 - 16);
            proof {
                assert(v@ =~= seq![(row.rlp2 - 16) as u8]);
            }
            Ok(v)
        } else {
            Err(MptError::RlpPrefixMismatch)
        }
    } else if row.rlp1 < 248 {
        if !(130 <= row.rlp2 && row.rlp2 <= 160) {
            return Err(MptError::RlpPrefixMismatch);
        }
        let len = (row.rlp2 - 128) as usize;
        if row.bytes[0] == 0 {
            let v = nibbles_of_range(&row.bytes, 1, len);
            proof {
                lemma_nibs_len_bound(row.bytes@.subrange(1, len as int));
            }
            Ok(v)
        } else if 16 <= row.bytes[0] && row.bytes[0] < 32 {
            let mut v: Vec<u8> = Vec::new();
            v.push(row.bytes[0] - 16);
            let rest = nibbles_of_range(&row.bytes, 1, len);
            append_all(&mut v, &rest);
            proof {
                assert(v@ =~= seq![(row.bytes@[0] - 16) as u8] + bytes_to_nibs(
                    row.bytes@.subrange(1, len as int),
                ));
                lemma_nibs_len_bound(row.bytes@.subrange(1, len as int));
            }
            Ok(v)
        } else {
            Err(MptError::RlpPrefixMismatch)
        }
    } else {
        if !(130 <= row.bytes[0] && row.bytes[0] <= 159) {
            return Err(MptError::RlpPrefixMismatch);
        }
        let len = (row.bytes[0] - 128) as usize;
        if row.bytes[1] == 0 {
            let v = nibbles_of_range(&row.bytes, 2, 1 + len);
            proof {
                lemma_nibs_len_bound(row.bytes@.subrange(2, 1 + len as int));
            }
            Ok(v)
        } else if 16 <= row.bytes[1] && row.bytes[1] < 32 {
            let mut v: Vec<u8> = Vec::new();
            v.push(row.bytes[1] - 16);
            let rest = nibbles_of_range(&row.bytes, 2, 1 + len);
            append_all(&mut v, &rest);
            proof {
                assert(v@ =~= seq![(row.bytes@[1] - 16) as u8] + bytes_to_nibs(
                    row.bytes@.subrange(2, 1 + len as int),
                ));
                lemma_nibs_len_bound(row.bytes@.subrange(2, 1 + len as int));
            }
            Ok(v)
        } else {
            Err(MptError::RlpPrefixMismatch)
        }
    }
}

/// The nibble expansion of at most 31 bytes holds at most 62 nibbles.
proof fn lemma_nibs_len_bound(bs: Seq<u8>)
    requires
        bs.len() <= 31,
    ensures
        bytes_to_nibs(bs).len() <= 62,
{
    crate::key::lemma_bytes_to_nibs_len(bs);
}

/// Which side the placeholder flags select; meaningful when not both are
/// set.
pub open spec fn placeholder_of(init: BranchInitRow) -> PlaceholderSide {
    if init.is_placeholder_s == 1 {
        PlaceholderSide::S
    } else if init.is_placeholder_c == 1 {
        PlaceholderSide::C
    } else {
        PlaceholderSide::Neither
    }
}

/// The full specification of the branch check: boolean flags, a single
/// placeholder side, child indices in range, extension-row presence
/// matching the extension flags, RLP length bookkeeping on both sides, S/C
/// equality outside the modified child, the two-non-nil shape of the
/// branch parallel to a placeholder, and the nibble-counter increment.
pub open spec fn branch_check_model(
    init: BranchInitRow,
    s_children: Seq<BranchChildRow>,
    c_children: Seq<BranchChildRow>,
    ext_row: Option<TrieNodeRow>,
    prev_nibbles: Option<u64>,
    r: int,
) -> Result<BranchContext, MptError> {
    if !init_flags_ok(init) {
        Err(MptError::MalformedFlags)
    } else if init.is_placeholder_s == 1 && init.is_placeholder_c == 1 {
        Err(MptError::BranchInvariant)
    } else if init.modified_index >= 16 || init.drifted_index >= 16 {
        Err(MptError::BranchInvariant)
    } else if (ext_flag_sum(init) == 1) != ext_row is Some {
        Err(MptError::BranchInvariant)
    } else {
        let ext_nibs = match ext_row {
            Option::Some(row) => ext_key_nibs_model(row),
            Option::None => Ok(Seq::<u8>::empty()),
        };
        match ext_nibs {
            Err(e) => Err(e),
            Ok(enibs) => match side_lengths_model(init.s_header@, s_children) {
                Err(e) => Err(e),
                Ok(()) => match side_lengths_model(init.c_header@, c_children) {
                    Err(e) => Err(e),
                    Ok(()) => if !sc_equal_outside(
                        s_children,
                        c_children,
                        init.modified_index as int,
                    ) {
                        Err(MptError::BranchInvariant)
                    } else if init.is_placeholder_s == 1 && sum_rlp2(s_children) != 320 {
                        Err(MptError::BranchInvariant)
                    } else if init.is_placeholder_c == 1 && sum_rlp2(c_children) != 320 {
                        Err(MptError::BranchInvariant)
                    } else {
                        let prev = match prev_nibbles {
                            Option::Some(p) => p as int,
                            Option::None => 0,
                        };
                        if prev + enibs.len() + 1 > 64 {
                            Err(MptError::NibbleCount)
                        } else {
                            let placeholder = placeholder_of(init);
                            let drifted = if placeholder == PlaceholderSide::Neither {
                                init.modified_index
                            } else {
                                init.drifted_index
                            };
                            let mod_s = if placeholder == PlaceholderSide::S {
                                child_hash_rlc_spec(c_children[drifted as int], r)
                            } else {
                                child_hash_rlc_spec(s_children[init.modified_index as int], r)
                            };
                            let mod_c = if placeholder == PlaceholderSide::C {
                                child_hash_rlc_spec(s_children[drifted as int], r)
                            } else {
                                child_hash_rlc_spec(c_children[init.modified_index as int], r)
                            };
                            Ok(
                                BranchContext {
                                    is_extension: ext_flag_sum(init) == 1,
                                    placeholder,
                                    modified_index: init.modified_index,
                                    drifted_index: drifted,
                                    c16: (prev + enibs.len()) % 2 == 0,
                                    nibbles_counter: (prev + enibs.len() + 1) as u64,
                                    mod_node_hash_rlc_s: Fp { v: mod_s as u64 },
                                    mod_node_hash_rlc_c: Fp { v: mod_c as u64 },
                                },
                            )
                        }
                    },
                },
            },
        }
    }
}

/// The RLC of a whole branch side (the branch's hash preimage): the one to
/// three RLP header bytes, then each child's RLP bytes in order.
pub open spec fn child_rlc_model(st: RlcState, c: BranchChildRow, r: int) -> RlcState {
    if c.rlp2 == 160 {
        rlc_fold(rlc_step(st, 160, r), c.bytes@, r)
    } else if c.rlp2 == 0 && c.bytes@[0] == 128 {
        rlc_step(st, 128, r)
    } else {
        rlc_fold(st, c.bytes@.subrange(0, 1 + (c.bytes@[0] - 192)), r)
    }
}

/// The header-byte part of a branch side's RLC.
pub open spec fn header_rlc_model(st: RlcState, h: Seq<u8>, r: int) -> RlcState {
    if h[0] == 249 {
        rlc_step(rlc_step(rlc_step(st, h[0], r), h[1], r), h[2], r)
    } else if h[0] == 248 {
        rlc_step(rlc_step(st, h[0], r), h[1], r)
    } else {
        rlc_step(st, h[0], r)
    }
}

/// The RLC of a branch side, folded over the children left to right.
pub open spec fn branch_rlc_model(
    st: RlcState,
    cs: Seq<BranchChildRow>,
    r: int,
) -> RlcState
    decreases cs.len(),
{
    if cs.len() == 0 {
        st
    } else {
        branch_rlc_model(child_rlc_model(st, cs.first(), r), cs.drop_first(), r)
    }
}

/// The branch structural engine's configuration: the RLC randomness.
#[derive(Clone, Copy, Debug)]
pub struct BranchConfig {
    pub r: Fp,
}

impl BranchConfig {
    /// Validity: the randomness is a reduced field element.
    pub open spec fn wf(self) -> bool {
        self.r.wf()
    }

    /// Sets the engine up with the RLC randomness.
    pub fn configure(r: Fp) -> (cfg: BranchConfig)
        ensures
            cfg.r == r,
    {
        BranchConfig { r }
    }

    /// Checks one branch: validates every branch-level invariant and
    /// publishes the per-branch context that the leaf engines below
    /// consume. `prev_nibbles` is the counter of the branch above (absent
    /// at the top of the trie); `ext_row` is the extension key row, present
    /// exactly when the extension flags claim one.
    pub fn check_branch(
        &self,
        init: &BranchInitRow,
        s_children: &Vec<BranchChildRow>,
        c_children: &Vec<BranchChildRow>,
        ext_row: Option<&TrieNodeRow>,
        prev_nibbles: Option<u64>,
    ) -> (res: Result<BranchContext, MptError>)
        requires
            self.wf(),
            init.wf(),
            s_children@.len() == ARITY,
            c_children@.len() == ARITY,
            forall|j: int| 0 <= j < 16 ==> s_children@[j].wf() && c_children@[j].wf(),
            match ext_row {
                Option::Some(row) => row.wf(),
                Option::None => true,
            },
            match prev_nibbles {
                Option::Some(p) => p <= 64,
                Option::None => true,
            },
        ensures
            res == branch_check_model(
                *init,
                s_children@,
                c_children@,
                match ext_row {
                    Option::Some(row) => Option::Some(*row),
                    Option::None => Option::None::<TrieNodeRow>,
                },
                prev_nibbles,
                self.r.as_int(),
            ),
            res is Ok ==> forall|j: int|
                0 <= j < 16 ==> child_shape_ok(#[trigger] s_children@[j]) && child_shape_ok(
                    c_children@[j],
                ),
    {
        if !self.flags_check(init) {
            return Err(MptError::MalformedFlags);
        }
        if init.is_placeholder_s == 1 && init.is_placeholder_c == 1 {
            return Err(MptError::BranchInvariant);
        }
        if init.modified_index >= 16 || init.drifted_index >= 16 {
            return Err(MptError::BranchInvariant);
        }
        let ext_sum = self.ext_flag_sum_exec(init);
        let is_extension = ext_sum == 1;
        if is_extension != ext_row.is_some() {
            return Err(MptError::BranchInvariant);
        }
        let enibs: Vec<u8> = match ext_row {
            Option::Some(row) => match ext_key_nibbles(row) {
                Ok(v) => v,
                Err(e) => {
                    return Err(e);
                },
            },
            Option::None => Vec::new(),
        };
        match self.side_lengths_check(&init.s_header, s_children) {
            Ok(()) => (),
            Err(e) => {
                return Err(e);
            },
        }
        match self.side_lengths_check(&init.c_header, c_children) {
            Ok(()) => (),
            Err(e) => {
                return Err(e);
            },
        }
        if !self.single_diff_check(s_children, c_children, init.modified_index) {
            return Err(MptError::BranchInvariant);
        }
        if init.is_placeholder_s == 1 && self.sum_rlp2_exec(s_children) != 320 {
            return Err(MptError::BranchInvariant);
        }
        if init.is_placeholder_c == 1 && self.sum_rlp2_exec(c_children) != 320 {
            return Err(MptError::BranchInvariant);
        }
        let prev: u64 = match prev_nibbles {
            Option::Some(p) => p,
            Option::None => 0,
        };
        if prev + (enibs.len() as u64) + 1 > 64 {
            return Err(MptError::NibbleCount);
        }
        let placeholder = if init.is_placeholder_s == 1 {
            PlaceholderSide::S
        } else if init.is_placeholder_c == 1 {
            PlaceholderSide::C
        } else {
            PlaceholderSide::Neither
        };
        let drifted = if placeholder == PlaceholderSide::Neither {
            init.modified_index
        } else {
            init.drifted_index
        };
        let mod_s = if placeholder == PlaceholderSide::S {
            self.child_hash_rlc(&c_children[drifted as usize])
        } else {
            self.child_hash_rlc(&s_children[init.modified_index as usize])
        };
        let mod_c = if placeholder == PlaceholderSide::C {
            self.child_hash_rlc(&s_children[drifted as usize])
        } else {
            self.child_hash_rlc(&c_children[init.modified_index as usize])
        };
        let counter = prev + (enibs.len() as u64) + 1;
        proof {
            lemma_side_lengths_gives_shapes(init.s_header@, s_children@);
            lemma_side_lengths_gives_shapes(init.c_header@, c_children@);
        }
        Ok(
            BranchContext {
                is_extension,
                placeholder,
                modified_index: init.modified_index,
                drifted_index: drifted,
                c16: (prev + (enibs.len() as u64)) % 2 == 0,
                nibbles_counter: counter,
                mod_node_hash_rlc_s: mod_s,
                mod_node_hash_rlc_c: mod_c,
            },
        )
    }

    /// Consumes a branch level into the key accumulator: the extension
    /// key's nibbles, if any, then the modified-child nibble of the branch
    /// itself.
    pub fn branch_key_step(
        &self,
        acc: &KeyAccumulator,
        modified_index: u8,
        ext_row: Option<&TrieNodeRow>,
    ) -> (res: Result<KeyAccumulator, MptError>)
        requires
            self.wf(),
            acc.wf(),
            modified_index < 16,
            match ext_row {
                Option::Some(row) => row.wf(),
                Option::None => true,
            },
        ensures
            match res {
                Ok(a2) => {
                    &&& a2.wf()
                    &&& match ext_row {
                        Option::Some(row) => {
                            &&& ext_key_nibs_model(*row) is Ok
                            &&& {
                                let enibs = ext_key_nibs_model(*row)->Ok_0;
                                &&& acc.nibble_count + enibs.len() + 1 <= 64
                                &&& a2.nibble_count == acc.nibble_count + enibs.len() + 1
                                &&& a2.state() == nib_step(
                                    nib_fold(acc.state(), enibs, self.r.as_int()),
                                    modified_index,
                                    self.r.as_int(),
                                )
                            }
                        },
                        Option::None => {
                            &&& acc.nibble_count + 1 <= 64
                            &&& a2.nibble_count == acc.nibble_count + 1
                            &&& a2.state() == nib_step(
                                acc.state(),
                                modified_index,
                                self.r.as_int(),
                            )
                        },
                    }
                },
                Err(e) => match ext_row {
                    Option::Some(row) => match ext_key_nibs_model(*row) {
                        Err(pe) => e == pe,
                        Ok(enibs) => e == MptError::NibbleCount && acc.nibble_count + enibs.len()
                            + 1 > 64,
                    },
                    Option::None => e == MptError::NibbleCount && acc.nibble_count + 1 > 64,
                },
            },
    {
        let acc1 = match ext_row {
            Option::Some(row) => {
                let enibs = match ext_key_nibbles(row) {
                    Ok(v) => v,
                    Err(e) => {
                        return Err(e);
                    },
                };
                match key_fold_nibbles(acc, &enibs, self.r) {
                    Ok(a) => a,
                    Err(e) => {
                        return Err(e);
                    },
                }
            },
            Option::None => *acc,
        };
        key_step_nibble(&acc1, modified_index, self.r)
    }

    /// Computes the RLC of one branch side, the side's hash preimage. The
    /// caller hands the value to the external hash oracle and then checks
    /// the answer against the hash its parent records.
    pub fn branch_side_rlc(&self, header: &Vec<u8>, children: &Vec<BranchChildRow>) -> (res:
        RlcAcc)
        requires
            self.wf(),
            header@.len() == 3,
            children@.len() == 16,
            forall|j: int| 0 <= j < 16 ==> children@[j].wf() && child_shape_ok(children@[j]),
        ensures
            res.wf(),
            res.state() == branch_rlc_model(
                header_rlc_model(RlcState { rlc: 0, mult: 1 }, header@, self.r.as_int()),
                children@,
                self.r.as_int(),
            ),
    {
        let mut st = RlcAcc::start();
        if header[0] == 249 {
            st = st.push_byte(header[0], self.r).push_byte(header[1], self.r).push_byte(
                header[2],
                self.r,
            );
        } else if header[0] == 248 {
            st = st.push_byte(header[0], self.r).push_byte(header[1], self.r);
        } else {
            st = st.push_byte(header[0], self.r);
        }
        let mut j: usize = 0;
        proof {
            assert(children@.skip(0) =~= children@);
        }
        while j < 16
            invariant
                j <= 16,
                self.wf(),
                st.wf(),
                children@.len() == 16,
                forall|k: int| 0 <= k < 16 ==> children@[k].wf() && child_shape_ok(children@[k]),
                branch_rlc_model(
                    header_rlc_model(RlcState { rlc: 0, mult: 1 }, header@, self.r.as_int()),
                    children@,
                    self.r.as_int(),
                ) == branch_rlc_model(st.state(), children@.skip(j as int), self.r.as_int()),
            decreases 16 - j,
        {
            proof {
                assert(children@.skip(j as int).first() == children@[j as int]);
                assert(children@.skip(j as int).drop_first() =~= children@.skip(j as int + 1));
            }
            let c = &children[j];
            if c.rlp2 == 160 {
                proof {
                    assert(c.bytes@.subrange(0, 32) =~= c.bytes@);
                }
                st = st.push_byte(160, self.r).push_range(&c.bytes, 0, 32, self.r);
            } else if c.rlp2 == 0 && c.bytes[0] == 128 {
                st = st.push_byte(128, self.r);
            } else {
                proof {
                    assert(child_num_bytes_spec(children@[j as int]) is Ok);
                    assert(192 < c.bytes@[0] <= 223);
                }
                let len: usize = 1 + ((c.bytes[0] - 192) as usize);
                st = st.push_range(&c.bytes, 0, len, self.r);
            }
            j = j + 1;
        }
        proof {
            assert(children@.skip(16) =~= Seq::<BranchChildRow>::empty());
        }
        st
    }

    /// Checks that the hash the external oracle returned for a branch
    /// side's preimage equals the child hash its parent branch records at
    /// the modified position.
    pub fn check_branch_in_parent(&self, oracle_hash_rlc: Fp, parent_mod_node_hash_rlc: Fp) -> (res:
        Result<(), MptError>)
        ensures
            res == if oracle_hash_rlc == parent_mod_node_hash_rlc {
                Result::<(), MptError>::Ok(())
            } else {
                Result::<(), MptError>::Err(MptError::HashLinkage)
            },
    {
        if oracle_hash_rlc == parent_mod_node_hash_rlc {
            Ok(())
        } else {
            Err(MptError::HashLinkage)
        }
    }

    /// Checks the booleanity of the init row's flags.
    fn flags_check(&self, init: &BranchInitRow) -> (ok: bool)
        requires
            init.wf(),
        ensures
            ok == init_flags_ok(*init),
    {
        init.is_placeholder_s <= 1 && init.is_placeholder_c <= 1 && init.is_not_hashed_s <= 1
            && init.is_not_hashed_c <= 1 && init.ext_flags[0] <= 1 && init.ext_flags[1] <= 1
            && init.ext_flags[2] <= 1 && init.ext_flags[3] <= 1 && init.ext_flags[4] <= 1
            && init.ext_flags[5] <= 1 && self.ext_flag_sum_exec(init) <= 1
    }

    /// Sums the six extension-kind flags.
    fn ext_flag_sum_exec(&self, init: &BranchInitRow) -> (s: u64)
        requires
            init.wf(),
        ensures
            s == ext_flag_sum(*init),
    {
        init.ext_flags[0] as u64 + init.ext_flags[1] as u64 + init.ext_flags[2] as u64
            + init.ext_flags[3] as u64 + init.ext_flags[4] as u64 + init.ext_flags[5] as u64
    }

    /// Checks the RLP length bookkeeping of one branch side.
    fn side_lengths_check(&self, header: &Vec<u8>, children: &Vec<BranchChildRow>) -> (res: Result<
        (),
        MptError,
    >)
        requires
            header@.len() == 3,
            children@.len() == 16,
            forall|j: int| 0 <= j < 16 ==> children@[j].wf(),
        ensures
            res == side_lengths_model(header@, children@),
    {
        let rem0: i64 = if header[0] == 249 {
            (header[1] as i64) * 256 + (header[2] as i64)
        } else if header[0] == 248 {
            header[1] as i64
        } else if 192 <= header[0] && header[0] < 248 {
            (header[0] - 192) as i64
        } else {
            return Err(MptError::RlpPrefixMismatch);
        };
        let mut rem: i64 = rem0;
        let mut j: usize = 0;
        proof {
            assert(children@.skip(0) =~= children@);
        }
        while j < 16
            invariant
                j <= 16,
                children@.len() == 16,
                forall|k: int| 0 <= k < 16 ==> children@[k].wf(),
                0 <= rem0 <= 65535,
                rem0 - 33 * j <= rem <= rem0,
                header_rem_spec(header@) == Ok::<int, MptError>(rem0 as int),
                fold_child_lengths(rem0 as int, children@) == fold_child_lengths(
                    rem as int,
                    children@.skip(j as int),
                ),
            decreases 16 - j,
        {
            proof {
                assert(children@.skip(j as int).first() == children@[j as int]);
                assert(children@.skip(j as int).drop_first() =~= children@.skip(j as int + 1));
            }
            let c = &children[j];
            let n: i64 = if c.rlp2 == 160 {
                33
            } else if c.rlp2 == 0 && c.bytes[0] == 128 {
                1
            } else if c.rlp2 == 0 && 192 < c.bytes[0] && c.bytes[0] <= 223 {
                1 + ((c.bytes[0] - 192) as i64)
            } else {
                return Err(MptError::BranchInvariant);
            };
            rem = rem - n;
            j = j + 1;
        }
        proof {
            assert(children@.skip(16) =~= Seq::<BranchChildRow>::empty());
        }
        if rem == 1 {
            Ok(())
        } else {
            Err(MptError::BranchInvariant)
        }
    }

    /// Checks the S/C equality of the children outside the modified
    /// position.
    fn single_diff_check(
        &self,
        s_children: &Vec<BranchChildRow>,
        c_children: &Vec<BranchChildRow>,
        modified_index: u8,
    ) -> (ok: bool)
        requires
            s_children@.len() == 16,
            c_children@.len() == 16,
        ensures
            ok == sc_equal_outside(s_children@, c_children@, modified_index as int),
    {
        let mut j: usize = 0;
        while j < 16
            invariant
                j <= 16,
                s_children@.len() == 16,
                c_children@.len() == 16,
                forall|k: int|
                    0 <= k < j && k != modified_index as int ==> s_children@[k].rlp2
                        == c_children@[k].rlp2 && s_children@[k].bytes@ == c_children@[k].bytes@,
            decreases 16 - j,
        {
            if j != modified_index as usize {
                if s_children[j].rlp2 != c_children[j].rlp2 {
                    return false;
                }
                if !bytes_eq(&s_children[j].bytes, &c_children[j].bytes) {
                    return false;
                }
            }
            j = j + 1;
        }
        true
    }

    /// Sums the children's second RLP bytes.
    fn sum_rlp2_exec(&self, children: &Vec<BranchChildRow>) -> (s: u64)
        requires
            children@.len() == 16,
        ensures
            s == sum_rlp2(children@),
    {
        let mut s: u64 = 0;
        let mut j: usize = 0;
        proof {
            assert(children@.skip(0) =~= children@);
        }
        while j < 16
            invariant
                j <= 16,
                children@.len() == 16,
                s <= 255 * j,
                sum_rlp2(children@) == s + sum_rlp2(children@.skip(j as int)),
            decreases 16 - j,
        {
            proof {
                assert(children@.skip(j as int).first() == children@[j as int]);
                assert(children@.skip(j as int).drop_first() =~= children@.skip(j as int + 1));
            }
            s = s + children[j].rlp2 as u64;
            j = j + 1;
        }
        proof {
            assert(children@.skip(16) =~= Seq::<BranchChildRow>::empty());
        }
        s
    }

    /// Computes the RLC of one child's 32-byte payload.
    fn child_hash_rlc(&self, c: &BranchChildRow) -> (h: Fp)
        requires
            self.wf(),
            c.wf(),
        ensures
            h.wf(),
            h.as_int() == child_hash_rlc_spec(*c, self.r.as_int()),
    {
        proof {
            assert(c.bytes@.subrange(0, 32) =~= c.bytes@);
        }
        RlcAcc::start().push_range(&c.bytes, 0, 32, self.r).rlc
    }
}

/// Byte-for-byte equality of two vectors.
fn bytes_eq(a: &Vec<u8>, b: &Vec<u8>) -> (r: bool)
    ensures
        r == (a@ == b@),
{
    if a.len() != b.len() {
        return false;
    }
    let mut i: usize = 0;
    while i < a.len()
        invariant
            i <= a@.len(),
            a@.len() == b@.len(),
            forall|k: int| 0 <= k < i ==> a@[k] == b@[k],
        decreases a@.len() - i,
    {
        if a[i] != b[i] {
            return false;
        }
        i = i + 1;
    }
    proof {
        assert(a@ =~= b@);
    }
    true
}

/// The nibble counter a branch publishes agrees with the key accumulator
/// that `branch_key_step` threads through the same level: both advance by
/// the extension key's nibbles plus one for the branch's own nibble, so a
/// step from an accumulator whose count equals `prev_nibbles` lands on the
/// published counter.
pub proof fn lemma_counter_matches_step(
    init: BranchInitRow,
    s_children: Seq<BranchChildRow>,
    c_children: Seq<BranchChildRow>,
    ext_row: Option<TrieNodeRow>,
    prev_nibbles: Option<u64>,
    r: int,
)
    requires
        branch_check_model(init, s_children, c_children, ext_row, prev_nibbles, r) is Ok,
    ensures
        ({
            let ctx = branch_check_model(
                init,
                s_children,
                c_children,
                ext_row,
                prev_nibbles,
                r,
            )->Ok_0;
            let prev = match prev_nibbles {
                Option::Some(p) => p as int,
                Option::None => 0,
            };
            let elen = match ext_row {
                Option::Some(row) => ext_key_nibs_model(row)->Ok_0.len() as int,
                Option::None => 0,
            };
            ctx.nibbles_counter == prev + elen + 1
        }),
{
}

/// **Branch single-diff**: when the S/C-equality check accepts a branch,
/// every child position where the two sides differ is the modified
/// position; a change at any second position is rejected.
pub proof fn lemma_branch_single_diff(
    s: Seq<BranchChildRow>,
    c: Seq<BranchChildRow>,
    m: int,
    j: int,
)
    requires
        sc_equal_outside(s, c, m),
        0 <= j < 16,
        !(s[j].rlp2 == c[j].rlp2 && s[j].bytes@ == c[j].bytes@),
    ensures
        j == m,
{
}

/// The nibbles consumed by a sequence of path segments (one segment per
/// branch level: the extension key's nibbles plus the branch's own
/// nibble).
pub open spec fn total_consumed(segs: Seq<Seq<u8>>) -> int
    decreases segs.len(),
{
    if segs.len() == 0 {
        0
    } else {
        segs.first().len() + total_consumed(segs.drop_first())
    }
}

/// The accumulator's nibble counter after folding the segments in order,
/// as the step functions update it.
pub open spec fn count_after(start: int, segs: Seq<Seq<u8>>) -> int
    decreases segs.len(),
{
    if segs.len() == 0 {
        start
    } else {
        count_after(start + segs.first().len(), segs.drop_first())
    }
}

/// The running counter is the sum of the segment lengths.
pub proof fn lemma_count_after(start: int, segs: Seq<Seq<u8>>)
    ensures
        count_after(start, segs) == start + total_consumed(segs),
    decreases segs.len(),
{
    if segs.len() != 0 {
        lemma_count_after(start + segs.first().len(), segs.drop_first());
    }
}

/// **Nibble conservation**: the leaf engine's 64-nibble acceptance check —
/// the running counter reaching the leaf plus the leaf's own contribution
/// equalling 64 — holds exactly when the nibbles consumed by every branch
/// and extension segment along the path, plus the leaf's, sum to 64.
pub proof fn lemma_nibble_conservation(segs: Seq<Seq<u8>>, leaf_nibbles: int)
    ensures
        count_after(0, segs) + leaf_nibbles == 64 <==> total_consumed(segs) + leaf_nibbles == 64,
{
    lemma_count_after(0, segs);
}

} // verus!
