//! The drifted leaf engine. When an insertion turns a leaf into a branch
//! (or a deletion collapses a branch back into a leaf), one side of the
//! proof carries a placeholder branch and the displaced leaf reappears one
//! level deeper, at the branch's drifted position. This engine recomputes
//! the drifted leaf's key RLC — the accumulator above the placeholder, plus
//! the drifted-position nibble, plus the leaf's remaining key — and checks
//! that it equals the key RLC of the same leaf before the drift: the key
//! continuity proof across the drift. A second check ties the drifted
//! leaf's hash to the hash the placeholder branch records at the drifted
//! position.

use vstd::prelude::*;
use crate::classifier::{classify, classify_spec, LeafCase};
use crate::fp::Fp;
use crate::key::{
    key_fold_nibbles, key_step_nibble, lemma_nib_fold_concat, nib_fold, nib_step, rlc_fold,
    rlc_step, KeyAccumulator, KeyState, RlcAcc, RlcState,
};
use crate::leaf::{
    hp_extract, hp_marker_ok, leaf_key_len, leaf_nibs, leaf_row_rlc, leaf_row_rlc_model,
    lemma_hp_nibbles_len, TrieNodeRow,
};
use crate::MptError;

verus! {

/// Which side of the proof, if any, carries the placeholder branch.
#[derive(Clone, Copy, Debug, PartialEq, Eq, Structural)]
pub enum PlaceholderSide {
    /// No placeholder: the branch is real on both sides.
    Neither,
    /// The placeholder stands in the S (before) proof.
    S,
    /// The placeholder stands in the C (after) proof.
    C,
}

/// The structural conditions a drifted leaf row must meet for its case. A
/// drifted leaf moved down exactly one branch level, so it never has the
/// one-nibble shape; its key length must fit the key region, and the first
/// key byte must carry the hex-prefix marker for the parity reached after
/// the drifted-position nibble.
pub open spec fn drift_prefix_ok(row: TrieNodeRow, case: LeafCase, high: bool) -> bool {
    match case {
        LeafCase::Short => 1 <= leaf_key_len(row, case) <= 33 && hp_marker_ok(
            row.key_region()[0],
            high,
        ),
        LeafCase::Long => row.rlp1 == 248 && 1 <= leaf_key_len(row, case) <= 33 && hp_marker_ok(
            row.key_region()[1],
            high,
        ),
        LeafCase::LastLevel => row.rlp2 == 32,
        LeafCase::OneNibble => false,
    }
}

/// The full specification of the drifted-leaf key check: classify the row
/// (a one-nibble drifted leaf is malformed), consume the drifted-position
/// nibble from the accumulator of the added branch, check the row's RLP
/// markers at the resulting parity, fold the leaf's remaining nibbles, and
/// compare with the key RLC stored at the pre-drift leaf row.
pub open spec fn drifted_check_model(
    row: TrieNodeRow,
    acc: KeyAccumulator,
    drifted_index: u8,
    stored_key_rlc: Fp,
    r: int,
) -> Result<Fp, MptError> {
    match classify_spec(row.flag1, row.flag2) {
        Err(e) => Err(e),
        Ok(case) => if case == LeafCase::OneNibble {
            Err(MptError::MalformedFlags)
        } else {
            let st1 = nib_step(acc.state(), drifted_index, r);
            if !drift_prefix_ok(row, case, st1.high) {
                Err(MptError::RlpPrefixMismatch)
            } else if acc.nibble_count + 1 + leaf_nibs(row, case, st1.high).len() > 64 {
                Err(MptError::NibbleCount)
            } else {
                let fin = nib_fold(st1, leaf_nibs(row, case, st1.high), r);
                if fin.rlc != stored_key_rlc.as_int() {
                    Err(MptError::KeyContinuity)
                } else {
                    Ok(Fp { v: fin.rlc as u64 })
                }
            }
        },
    }
}

/// The hash preimage of the drifted leaf: the RLC of its key row's real
/// bytes, continued immediately by the value row it shares with the
/// pre-drift leaf — the value's first byte enters at `r^(key_len + 2)` for
/// a short leaf and `r^(key_len + 3)` for a long one, so the folded string
/// is the leaf's RLP encoding (the value row's trailing zeros add nothing
/// to the RLC).
pub open spec fn drifted_preimage_model(
    row: TrieNodeRow,
    case: LeafCase,
    value_row: TrieNodeRow,
    r: int,
) -> RlcState {
    let st = leaf_row_rlc_model(row, case, r);
    rlc_fold(rlc_step(rlc_step(st, value_row.rlp1, r), value_row.rlp2, r), value_row.bytes@, r)
}

/// Configuration of the drifted-leaf engine: the RLC randomness.
#[derive(Clone, Copy, Debug, PartialEq, Eq, Structural)]
pub struct LeafKeyInAddedBranchConfig {
    pub r: Fp,
}

impl LeafKeyInAddedBranchConfig {
    /// Validity: the randomness is a reduced field element.
    pub open spec fn wf(self) -> bool {
        self.r.wf()
    }
}

/// The drifted-leaf engine.
pub struct LeafKeyInAddedBranchChip {
    pub config: LeafKeyInAddedBranchConfig,
}

impl LeafKeyInAddedBranchChip {
    /// Sets the engine up with the RLC randomness.
    pub fn configure(r: Fp) -> (config: LeafKeyInAddedBranchConfig)
        ensures
            config.r == r,
    {
        LeafKeyInAddedBranchConfig { r }
    }

    /// Builds the engine from its configuration.
    pub fn construct(config: LeafKeyInAddedBranchConfig) -> (chip: Self)
        ensures
            chip.config == config,
    {
        Self { config }
    }

    /// The engine's configuration.
    pub fn config(&self) -> (c: &LeafKeyInAddedBranchConfig)
        ensures
            *c == self.config,
    {
        &self.config
    }

    /// Checks a drifted leaf row: recomputes its key RLC from `acc` — the
    /// accumulator above the placeholder, with any extension-node key of
    /// the added branch already folded in — plus the drifted-position
    /// nibble and the row's own key bytes, and compares it with
    /// `stored_key_rlc`, the key RLC of the same leaf before it drifted.
    /// Not meaningful when the leaf is in the first storage level, where no
    /// placeholder branch can exist.
    pub fn check_drifted_leaf(
        &self,
        row: &TrieNodeRow,
        acc: &KeyAccumulator,
        drifted_index: u8,
        stored_key_rlc: Fp,
    ) -> (res: Result<Fp, MptError>)
        requires
            self.config.wf(),
            row.wf(),
            acc.wf(),
            drifted_index < 16,
            stored_key_rlc.wf(),
        ensures
            res == drifted_check_model(
                *row,
                *acc,
                drifted_index,
                stored_key_rlc,
                self.config.r.as_int(),
            ),
    {
        let case = match classify(row.flag1, row.flag2) {
            Ok(LeafCase::OneNibble) => {
                return Err(MptError::MalformedFlags);
            },
            Ok(c) => c,
            Err(e) => {
                return Err(e);
            },
        };
        let acc1 = match key_step_nibble(acc, drifted_index, self.config.r) {
            Ok(a) => a,
            Err(_) => {
                // The accumulator is already full. `drifted_check_model`
                // still reports a marker violation ahead of the count
                // violation, so test the markers first.
                let high1: bool = !acc.c16;
                let prefix_ok = self.drift_prefix_check(row, case, high1);
                if !prefix_ok {
                    return Err(MptError::RlpPrefixMismatch);
                }
                return Err(MptError::NibbleCount);
            },
        };
        let prefix_ok = self.drift_prefix_check(row, case, acc1.c16);
        if !prefix_ok {
            return Err(MptError::RlpPrefixMismatch);
        }
        let region = row.key_region_vec();
        let nibs: Vec<u8> = match case {
            LeafCase::Short => {
                let key_len = (row.rlp2 - 128) as usize;
                proof {
                    assert(region@.skip(0) =~= region@);
                    lemma_hp_nibbles_len(region@, key_len as int, acc1.c16);
                }
                hp_extract(&region, 0, key_len, acc1.c16)
            },
            LeafCase::Long => {
                let key_len = (row.bytes[0] - 128) as usize;
                proof {
                    lemma_hp_nibbles_len(region@.skip(1), key_len as int, acc1.c16);
                }
                hp_extract(&region, 1, key_len, acc1.c16)
            },
            LeafCase::LastLevel => Vec::new(),
            LeafCase::OneNibble => {
                proof {
                    assert(false);
                }
                Vec::new()
            },
        };
        proof {
            assert(nibs@ == leaf_nibs(*row, case, acc1.c16));
        }
        let folded = match key_fold_nibbles(&acc1, &nibs, self.config.r) {
            Ok(a) => a,
            Err(e) => {
                return Err(e);
            },
        };
        if folded.rlc != stored_key_rlc {
            return Err(MptError::KeyContinuity);
        }
        Ok(folded.rlc)
    }

    /// Checks the structural markers of a drifted leaf row.
    fn drift_prefix_check(&self, row: &TrieNodeRow, case: LeafCase, high: bool) -> (ok: bool)
        requires
            row.wf(),
        ensures
            ok == drift_prefix_ok(*row, case, high),
    {
        match case {
            LeafCase::Short => {
                129 <= row.rlp2 && row.rlp2 <= 161 && self.marker_ok(row.key_byte(0), high)
            },
            LeafCase::Long => {
                row.rlp1 == 248 && 129 <= row.bytes[0] && row.bytes[0] <= 161 && self.marker_ok(
                    row.key_byte(1),
                    high,
                )
            },
            LeafCase::LastLevel => row.rlp2 == 32,
            LeafCase::OneNibble => false,
        }
    }

    /// Checks the hex-prefix marker of a first key byte.
    fn marker_ok(&self, first: u8, high: bool) -> (ok: bool)
        ensures
            ok == hp_marker_ok(first, high),
    {
        if high {
            first == 32
        } else {
            48 <= first && first < 64
        }
    }

    /// Computes the drifted leaf's hash preimage RLC: the key row's real
    /// bytes followed immediately by the value row it shares with the
    /// pre-drift leaf. The caller hands this value to the external hash
    /// oracle. The key row's RLP length byte must announce a key that fits
    /// the key region, as it does in any row `check_drifted_leaf` accepts.
    pub fn drifted_preimage_rlc(&self, row: &TrieNodeRow, case: LeafCase, value_row: &TrieNodeRow) -> (res:
        RlcAcc)
        requires
            self.config.wf(),
            row.wf(),
            value_row.wf(),
            case == LeafCase::Short ==> 129 <= row.rlp2 <= 161,
            case == LeafCase::Long ==> 129 <= row.bytes@[0] <= 161,
        ensures
            res.wf(),
            res.state() == drifted_preimage_model(*row, case, *value_row, self.config.r.as_int()),
    {
        let st = leaf_row_rlc(row, case, self.config.r);
        let st2 = st.push_byte(value_row.rlp1, self.config.r).push_byte(
            value_row.rlp2,
            self.config.r,
        );
        proof {
            assert(value_row.bytes@.subrange(0, value_row.bytes@.len() as int)
                =~= value_row.bytes@);
        }
        st2.push_range(&value_row.bytes, 0, value_row.bytes.len(), self.config.r)
    }

    /// Checks the hash linkage of the drifted leaf: the hash the external
    /// oracle returned for the leaf's preimage must equal the hash the
    /// placeholder branch records at the drifted position
    /// (`mod_node_hash_rlc` of the placeholder side).
    pub fn check_drifted_hash(&self, oracle_hash_rlc: Fp, mod_node_hash_rlc: Fp) -> (res: Result<
        (),
        MptError,
    >)
        ensures
            res == if oracle_hash_rlc == mod_node_hash_rlc {
                Result::<(), MptError>::Ok(())
            } else {
                Result::<(), MptError>::Err(MptError::HashLinkage)
            },
    {
        if oracle_hash_rlc == mod_node_hash_rlc {
            Ok(())
        } else {
            Err(MptError::HashLinkage)
        }
    }
}

/// **Drift symmetry**: consuming a leaf's first nibble as the drifted
/// position of an added branch and then folding the remaining nibbles gives
/// the same key RLC as folding all the leaf's nibbles at its pre-drift
/// position — the drifted leaf and the pre-drift leaf agree on the key.
pub proof fn lemma_drift_symmetry(st: KeyState, first_nib: u8, rest: Seq<u8>, r: int)
    ensures
        nib_fold(st, seq![first_nib] + rest, r) == nib_fold(nib_step(st, first_nib, r), rest, r),
{
    reveal_with_fuel(nib_fold, 2);
    lemma_nib_fold_concat(st, seq![first_nib], rest, r);
    assert(seq![first_nib].first() == first_nib);
    assert(seq![first_nib].drop_first() =~= Seq::<u8>::empty());
}

/// **Drift symmetry at the engine**: whenever the drifted-leaf check
/// accepts, the stored key RLC it was compared against equals the fold,
/// from the accumulator above the added branch, of the drifted position
/// followed by the drifted leaf's own nibbles — precisely the fold the leaf
/// key engine pins the pre-drift leaf's key RLC to when that leaf's nibble
/// sequence is the drifted position followed by the drifted leaf's
/// remainder.
pub proof fn lemma_drifted_matches_predrift(
    row: TrieNodeRow,
    acc: KeyAccumulator,
    drifted_index: u8,
    stored_key_rlc: Fp,
    r: int,
)
    requires
        drifted_check_model(row, acc, drifted_index, stored_key_rlc, r) is Ok,
    ensures
        ({
            let case = classify_spec(row.flag1, row.flag2)->Ok_0;
            let st1 = nib_step(acc.state(), drifted_index, r);
            nib_fold(acc.state(), seq![drifted_index] + leaf_nibs(row, case, st1.high), r).rlc
                == stored_key_rlc.as_int()
        }),
{
    let case = classify_spec(row.flag1, row.flag2)->Ok_0;
    let st1 = nib_step(acc.state(), drifted_index, r);
    lemma_drift_symmetry(acc.state(), drifted_index, leaf_nibs(row, case, st1.high), r);
}

} // verus!
