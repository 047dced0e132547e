//! The leaf key engine: given a leaf row, its positional context, and the
//! key accumulator reaching it, recompute the leaf's contribution to the
//! path-key RLC and to the total-nibble counter, and check them against the
//! values the proof claims. The total of nibbles consumed along the path
//! must be exactly 64 (a 32-byte key); anything else would let a short key
//! produce an unhashed, forgeable root.

use vstd::prelude::*;
use crate::classifier::{classify, classify_spec, LeafCase};
use crate::fp::Fp;
use crate::key::{
    bytes_to_nibs, key_fold_nibbles, lemma_bytes_to_nibs_len, lemma_pow_f_adds,
    lemma_pow_f_bounds, lemma_rlc_fold_mult, nib_fold, nibbles_of_range, pow_f, rlc_fold,
    rlc_step, KeyAccumulator, RlcAcc, RlcState,
};
use crate::MptError;

verus! {

/// Width of the payload region of a row: one 32-byte hash or key segment.
pub const HASH_WIDTH: usize = 32;

/// One fixed-width row of a leaf or branch child: two structural flag bits,
/// two RLP prefix bytes, the 32-byte payload, and two continuation bytes for
/// keys that overflow the payload width.
#[derive(Clone, Debug)]
pub struct TrieNodeRow {
    pub flag1: u8,
    pub flag2: u8,
    pub rlp1: u8,
    pub rlp2: u8,
    pub bytes: Vec<u8>,
    pub c_rlp1: u8,
    pub c_rlp2: u8,
}

impl TrieNodeRow {
    /// Validity: the payload region is exactly 32 bytes wide.
    pub open spec fn wf(self) -> bool {
        self.bytes@.len() == HASH_WIDTH
    }

    /// The region a leaf key can occupy: the payload followed by the two
    /// continuation bytes (34 bytes in all).
    pub open spec fn key_region(self) -> Seq<u8> {
        self.bytes@ + seq![self.c_rlp1, self.c_rlp2]
    }

    /// Reads one byte of the key region.
    pub fn key_byte(&self, i: usize) -> (b: u8)
        requires
            self.wf(),
            i < HASH_WIDTH + 2,
        ensures
            b == self.key_region()[i as int],
    {
        if i < HASH_WIDTH {
            self.bytes[i]
        } else if i == HASH_WIDTH {
            self.c_rlp1
        } else {
            self.c_rlp2
        }
    }

    /// The key region as a vector.
    pub fn key_region_vec(&self) -> (region: Vec<u8>)
        requires
            self.wf(),
        ensures
            region@ == self.key_region(),
    {
        let mut region: Vec<u8> = Vec::new();
        let mut i: usize = 0;
        while i < HASH_WIDTH
            invariant
                self.wf(),
                i <= HASH_WIDTH,
                region@ == self.bytes@.take(i as int),
            decreases HASH_WIDTH - i,
        {
            proof {
                assert(self.bytes@.take(i as int + 1) =~= self.bytes@.take(i as int).push(
                    self.bytes@[i as int],
                ));
            }
            region.push(self.bytes[i]);
            i = i + 1;
        }
        proof {
            assert(self.bytes@.take(HASH_WIDTH as int) =~= self.bytes@);
        }
        region.push(self.c_rlp1);
        region.push(self.c_rlp2);
        proof {
            assert(region@ =~= self.key_region());
        }
        region
    }
}

/// The positional context of a leaf: it fixes where the start values of the
/// key accumulation are sourced from.
#[derive(Clone, Copy, Debug)]
pub enum LeafContext {
    /// Below a regular branch: start values are the branch's accumulator.
    Normal { acc: KeyAccumulator },
    /// The leaf is the whole trie: identity start values, even parity.
    FirstLevel,
    /// Below a placeholder branch, which consumes nothing: start values are
    /// the accumulator of the branch above the placeholder.
    AfterPlaceholder { acc: KeyAccumulator },
}

impl LeafContext {
    /// Validity of the carried accumulator.
    pub open spec fn wf(self) -> bool {
        match self {
            LeafContext::Normal { acc } => acc.wf(),
            LeafContext::FirstLevel => true,
            LeafContext::AfterPlaceholder { acc } => acc.wf(),
        }
    }

    /// The start accumulator this context supplies.
    pub open spec fn start_acc_spec(self) -> KeyAccumulator {
        match self {
            LeafContext::Normal { acc } => acc,
            LeafContext::FirstLevel => KeyAccumulator {
                rlc: Fp { v: 0 },
                mult: Fp { v: 1 },
                nibble_count: 0,
                c16: true,
            },
            LeafContext::AfterPlaceholder { acc } => acc,
        }
    }

    /// Reads the start accumulator.
    pub fn start_acc(&self) -> (acc: KeyAccumulator)
        requires
            self.wf(),
        ensures
            acc == self.start_acc_spec(),
            acc.wf(),
    {
        match self {
            LeafContext::Normal { acc } => *acc,
            LeafContext::FirstLevel => KeyAccumulator {
                rlc: Fp { v: 0 },
                mult: Fp { v: 1 },
                nibble_count: 0,
                c16: true,
            },
            LeafContext::AfterPlaceholder { acc } => *acc,
        }
    }
}

/// Whether the first key byte carries the right hex-prefix marker: 32 when
/// an even number of nibbles remains (the byte is pure marker), 48 plus the
/// first nibble when an odd number remains.
pub open spec fn hp_marker_ok(first: u8, high: bool) -> bool {
    if high {
        first == 32
    } else {
        48 <= first < 64
    }
}

/// The nibbles encoded by a hex-prefix key of `key_len` bytes starting at
/// the head of `region`: the low nibble of the marker byte when the count is
/// odd, then two nibbles per remaining byte.
pub open spec fn hp_nibbles(region: Seq<u8>, key_len: int, high: bool) -> Seq<u8> {
    if high {
        bytes_to_nibs(region.subrange(1, key_len))
    } else {
        seq![(region[0] - 48) as u8] + bytes_to_nibs(region.subrange(1, key_len))
    }
}

/// The key length in bytes that the RLP prefix of the row claims.
pub open spec fn leaf_key_len(row: TrieNodeRow, case: LeafCase) -> int {
    match case {
        LeafCase::Short => row.rlp2 - 128,
        LeafCase::Long => row.bytes@[0] - 128,
        LeafCase::LastLevel => 0,
        LeafCase::OneNibble => 0,
    }
}

/// The nibbles the leaf claims to contribute, as the arithmetic formula of
/// the row encoding; negative when the RLP length byte is malformed, which
/// can never satisfy the 64-nibble total.
pub open spec fn leaf_nibbles_int(row: TrieNodeRow, case: LeafCase, high: bool) -> int {
    match case {
        LeafCase::Short => if high {
            2 * (leaf_key_len(row, case) - 1)
        } else {
            2 * leaf_key_len(row, case) - 1
        },
        LeafCase::Long => if high {
            2 * (leaf_key_len(row, case) - 1)
        } else {
            2 * leaf_key_len(row, case) - 1
        },
        LeafCase::LastLevel => 0,
        LeafCase::OneNibble => 1,
    }
}

/// The nibble sequence the leaf contributes to the path key.
pub open spec fn leaf_nibs(row: TrieNodeRow, case: LeafCase, high: bool) -> Seq<u8> {
    match case {
        LeafCase::Short => hp_nibbles(row.key_region(), leaf_key_len(row, case), high),
        LeafCase::Long => hp_nibbles(row.key_region().skip(1), leaf_key_len(row, case), high),
        LeafCase::LastLevel => Seq::<u8>::empty(),
        LeafCase::OneNibble => seq![(row.rlp2 - 48) as u8],
    }
}

/// The RLP-marker conditions of the row for its case: the 248 length prefix
/// for a long leaf, the 32 marker for a leaf in the last level, the nibble
/// prefix for a one-nibble leaf, and the hex-prefix marker of the first key
/// byte for short and long leaves.
pub open spec fn leaf_prefix_ok(row: TrieNodeRow, case: LeafCase, high: bool) -> bool {
    match case {
        LeafCase::Short => hp_marker_ok(row.key_region()[0], high),
        LeafCase::Long => row.rlp1 == 248 && hp_marker_ok(row.key_region()[1], high),
        LeafCase::LastLevel => row.rlp2 == 32,
        LeafCase::OneNibble => 48 <= row.rlp2 < 64,
    }
}

/// What the leaf key engine produces when every constraint holds.
#[derive(Clone, Copy, Debug, PartialEq, Eq, Structural)]
pub struct LeafKeyOutcome {
    /// The key RLC at the terminal leaf, equal to the checked expectation.
    pub key_rlc: Fp,
    /// How many nibbles the leaf contributed.
    pub nibbles_contributed: u64,
    /// The accumulator after the leaf: always 64 nibbles consumed.
    pub acc: KeyAccumulator,
}

/// The full specification of the leaf key check: classify the flags, check
/// the RLP markers for the case, check that the path reaches exactly 64
/// nibbles, fold the leaf's nibbles into the accumulator, and compare the
/// result with the claimed key RLC. Exactly one error class reports each
/// kind of violation.
pub open spec fn leaf_check_model(
    row: TrieNodeRow,
    ctx: LeafContext,
    expected: Fp,
    r: int,
) -> Result<LeafKeyOutcome, MptError> {
    let acc = ctx.start_acc_spec();
    match classify_spec(row.flag1, row.flag2) {
        Err(e) => Err(e),
        Ok(case) => if !leaf_prefix_ok(row, case, acc.c16) {
            Err(MptError::RlpPrefixMismatch)
        } else if acc.nibble_count + leaf_nibbles_int(row, case, acc.c16) != 64 {
            Err(MptError::NibbleCount)
        } else {
            let fin = nib_fold(acc.state(), leaf_nibs(row, case, acc.c16), r);
            if fin.rlc != expected.as_int() {
                Err(MptError::KeyContinuity)
            } else {
                Ok(
                    LeafKeyOutcome {
                        key_rlc: Fp { v: fin.rlc as u64 },
                        nibbles_contributed: leaf_nibbles_int(row, case, acc.c16) as u64,
                        acc: KeyAccumulator {
                            rlc: Fp { v: fin.rlc as u64 },
                            mult: Fp { v: fin.mult as u64 },
                            nibble_count: 64,
                            c16: true,
                        },
                    },
                )
            }
        },
    }
}

/// **Nibble conservation**: whenever the leaf key check accepts, the
/// nibbles consumed by the branches and extensions above the leaf (the
/// accumulator's counter) plus the nibbles the leaf's own key encodes total
/// exactly 64 — a full 32-byte key, whatever the leaf's encoding case.
pub proof fn lemma_leaf_total_is_64(row: TrieNodeRow, ctx: LeafContext, expected: Fp, r: int)
    requires
        row.wf(),
        ctx.wf(),
        leaf_check_model(row, ctx, expected, r) is Ok,
    ensures
        ({
            let acc = ctx.start_acc_spec();
            let case = classify_spec(row.flag1, row.flag2)->Ok_0;
            acc.nibble_count + leaf_nibs(row, case, acc.c16).len() == 64
        }),
{
    let acc = ctx.start_acc_spec();
    let case = classify_spec(row.flag1, row.flag2)->Ok_0;
    match case {
        LeafCase::Short => {
            lemma_hp_nibbles_len(row.key_region(), leaf_key_len(row, case), acc.c16);
        },
        LeafCase::Long => {
            lemma_hp_nibbles_len(row.key_region().skip(1), leaf_key_len(row, case), acc.c16);
        },
        LeafCase::LastLevel => {},
        LeafCase::OneNibble => {},
    }
}

/// The hex-prefix nibble count matches the arithmetic formula of the row
/// encoding.
pub proof fn lemma_hp_nibbles_len(region: Seq<u8>, key_len: int, high: bool)
    requires
        1 <= key_len <= region.len(),
    ensures
        hp_nibbles(region, key_len, high).len() == if high {
            2 * (key_len - 1)
        } else {
            2 * key_len - 1
        },
{
    lemma_bytes_to_nibs_len(region.subrange(1, key_len));
}

/// Extracts the hex-prefix nibbles of `region[off .. off + key_len]`: the
/// marker byte's low nibble first when the remaining count is odd, then two
/// nibbles per byte.
pub(crate) fn hp_extract(region: &Vec<u8>, off: usize, key_len: usize, high: bool) -> (nibs: Vec<
    u8,
>)
    requires
        1 <= key_len,
        off + key_len <= region@.len(),
        !high ==> 48 <= region@[off as int] < 64,
    ensures
        nibs@ == hp_nibbles(region@.skip(off as int), key_len as int, high),
        forall|i: int| 0 <= i < nibs@.len() ==> nibs@[i] < 16,
{
    let mut out: Vec<u8> = Vec::new();
    if !high {
        out.push(region[off] - 48);
    }
    let rl: usize = region.len();
    proof {
        assert(off + key_len <= rl);
    }
    let rest = nibbles_of_range(region, off + 1, off + key_len);
    proof {
        assert(region@.skip(off as int).subrange(1, key_len as int) =~= region@.subrange(
            off as int + 1,
            off as int + key_len,
        ));
    }
    let mut i: usize = 0;
    let ghost base: Seq<u8> = out@;
    while i < rest.len()
        invariant
            i <= rest@.len(),
            out@ == base + rest@.take(i as int),
            forall|j: int| 0 <= j < rest@.len() ==> rest@[j] < 16,
            forall|j: int| 0 <= j < base.len() ==> base[j] < 16,
        decreases rest@.len() - i,
    {
        proof {
            assert(rest@.take(i as int + 1) =~= rest@.take(i as int).push(rest@[i as int]));
        }
        out.push(rest[i]);
        i = i + 1;
    }
    proof {
        assert(rest@.take(rest@.len() as int) =~= rest@);
        assert(out@ =~= base + rest@);
        assert(out@ =~= hp_nibbles(region@.skip(off as int), key_len as int, high));
    }
    out
}

/// The leaf key engine's configuration: the RLC randomness.
#[derive(Clone, Copy, Debug)]
pub struct LeafKeyConfig {
    pub r: Fp,
}

impl LeafKeyConfig {
    /// Validity: the randomness is a reduced field element.
    pub open spec fn wf(self) -> bool {
        self.r.wf()
    }

    /// Sets the engine up with the RLC randomness.
    pub fn configure(r: Fp) -> (cfg: LeafKeyConfig)
        ensures
            cfg.r == r,
    {
        LeafKeyConfig { r }
    }

    /// Checks a leaf key row: recomputes the leaf's key-RLC contribution and
    /// nibble count from its bytes and the context's start values, and
    /// compares the result with the claimed `expected_key_rlc`.
    pub fn check_leaf_key(&self, row: &TrieNodeRow, ctx: &LeafContext, expected_key_rlc: Fp) -> (res:
        Result<LeafKeyOutcome, MptError>)
        requires
            self.wf(),
            row.wf(),
            ctx.wf(),
            expected_key_rlc.wf(),
        ensures
            res == leaf_check_model(*row, *ctx, expected_key_rlc, self.r.as_int()),
    {
        let acc = ctx.start_acc();
        let case = match classify(row.flag1, row.flag2) {
            Ok(c) => c,
            Err(e) => {
                return Err(e);
            },
        };
        let prefix_ok: bool = match case {
            LeafCase::Short => {
                let first = self.marker_check(row.key_byte(0), acc.c16);
                first
            },
            LeafCase::Long => row.rlp1 == 248 && self.marker_check(row.key_byte(1), acc.c16),
            LeafCase::LastLevel => row.rlp2 == 32,
            LeafCase::OneNibble => 48 <= row.rlp2 && row.rlp2 < 64,
        };
        if !prefix_ok {
            return Err(MptError::RlpPrefixMismatch);
        }
        let needed: u64 = 64 - acc.nibble_count;
        let count_ok: bool = match case {
            LeafCase::Short => if acc.c16 {
                2 * (row.rlp2 as u64) == needed + 258
            } else {
                2 * (row.rlp2 as u64) == needed + 257
            },
            LeafCase::Long => if acc.c16 {
                2 * (row.bytes[0] as u64) == needed + 258
            } else {
                2 * (row.bytes[0] as u64) == needed + 257
            },
            LeafCase::LastLevel => needed == 0,
            LeafCase::OneNibble => needed == 1,
        };
        proof {
            assert(count_ok <==> acc.nibble_count + leaf_nibbles_int(*row, case, acc.c16) == 64);
        }
        if !count_ok {
            return Err(MptError::NibbleCount);
        }
        let region = row.key_region_vec();
        let nibs: Vec<u8> = match case {
            LeafCase::Short => {
                let key_len = (row.rlp2 - 128) as usize;
                proof {
                    assert(region@.skip(0) =~= region@);
                    lemma_hp_nibbles_len(region@, key_len as int, acc.c16);
                }
                hp_extract(&region, 0, key_len, acc.c16)
            },
            LeafCase::Long => {
                let key_len = (row.bytes[0] - 128) as usize;
                proof {
                    lemma_hp_nibbles_len(region@.skip(1), key_len as int, acc.c16);
                }
                hp_extract(&region, 1, key_len, acc.c16)
            },
            LeafCase::LastLevel => Vec::new(),
            LeafCase::OneNibble => {
                let mut v: Vec<u8> = Vec::new();
                v.push(row.rlp2 - 48);
                proof {
                    assert(v@ =~= leaf_nibs(*row, case, acc.c16));
                }
                v
            },
        };
        proof {
            assert(nibs@ == leaf_nibs(*row, case, acc.c16));
            assert(nibs@.len() == leaf_nibbles_int(*row, case, acc.c16));
        }
        let folded = match key_fold_nibbles(&acc, &nibs, self.r) {
            Ok(a) => a,
            Err(e) => {
                proof {
                    assert(false);
                }
                return Err(e);
            },
        };
        if folded.rlc != expected_key_rlc {
            return Err(MptError::KeyContinuity);
        }
        Ok(
            LeafKeyOutcome {
                key_rlc: folded.rlc,
                nibbles_contributed: nibs.len() as u64,
                acc: folded,
            },
        )
    }

    /// Checks the hex-prefix marker of a first key byte.
    fn marker_check(&self, first: u8, high: bool) -> (ok: bool)
        ensures
            ok == hp_marker_ok(first, high),
    {
        if high {
            first == 32
        } else {
            48 <= first && first < 64
        }
    }
}

/// How many real bytes the leaf row holds: its RLP encoding up to and
/// including the last key byte. A short leaf is two RLP bytes and the key;
/// a long leaf adds the key-length byte; last-level and one-nibble rows
/// hold the two RLP bytes alone.
pub open spec fn leaf_row_len(row: TrieNodeRow, case: LeafCase) -> int {
    match case {
        LeafCase::Short => 2 + leaf_key_len(row, case),
        LeafCase::Long => 3 + leaf_key_len(row, case),
        LeafCase::LastLevel => 2,
        LeafCase::OneNibble => 2,
    }
}

/// The RLC of the leaf row's real bytes — the prefix of the leaf's hash
/// preimage. The zero padding of the fixed-width row is no part of the
/// preimage: the fold stops after the key's last byte, leaving the
/// multiplier at the position where the value row's bytes continue —
/// `r^(key_len + 2)` for a short leaf, `r^(key_len + 3)` for a long one
/// (see `lemma_leaf_row_mult`).
pub open spec fn leaf_row_rlc_model(row: TrieNodeRow, case: LeafCase, r: int) -> RlcState {
    let st0 = rlc_step(rlc_step(RlcState { rlc: 0, mult: 1 }, row.rlp1, r), row.rlp2, r);
    match case {
        LeafCase::Short => rlc_fold(st0, row.key_region().take(leaf_key_len(row, case)), r),
        LeafCase::Long => rlc_fold(st0, row.key_region().take(1 + leaf_key_len(row, case)), r),
        LeafCase::LastLevel => st0,
        LeafCase::OneNibble => st0,
    }
}

/// Computes the RLC of the leaf row's real bytes, the value a later
/// hash-table membership check uses as the start of the leaf's hash
/// preimage. The RLP length byte must announce a key that fits the key
/// region, as it does in any row the leaf engines accept.
pub fn leaf_row_rlc(row: &TrieNodeRow, case: LeafCase, r: Fp) -> (res: RlcAcc)
    requires
        row.wf(),
        r.wf(),
        case == LeafCase::Short ==> 129 <= row.rlp2 <= 161,
        case == LeafCase::Long ==> 129 <= row.bytes@[0] <= 161,
    ensures
        res.wf(),
        res.state() == leaf_row_rlc_model(*row, case, r.as_int()),
{
    let st0 = RlcAcc::start().push_byte(row.rlp1, r).push_byte(row.rlp2, r);
    match case {
        LeafCase::Short => {
            let region = row.key_region_vec();
            let key_len = (row.rlp2 - 128) as usize;
            proof {
                assert(region@.subrange(0, key_len as int) =~= row.key_region().take(
                    key_len as int,
                ));
            }
            st0.push_range(&region, 0, key_len, r)
        },
        LeafCase::Long => {
            let region = row.key_region_vec();
            let key_len = (row.bytes[0] - 128) as usize;
            proof {
                assert(region@.subrange(0, 1 + key_len as int) =~= row.key_region().take(
                    1 + key_len as int,
                ));
            }
            st0.push_range(&region, 0, 1 + key_len, r)
        },
        LeafCase::LastLevel | LeafCase::OneNibble => st0,
    }
}

/// The multiplier leaving the leaf-row fold is `r` raised to the number of
/// the row's real bytes: `r^(key_len + 2)` for a short leaf,
/// `r^(key_len + 3)` for a long one, and `r^2` for the two-byte rows — the
/// exact position at which the value row's bytes continue the preimage.
pub proof fn lemma_leaf_row_mult(row: TrieNodeRow, case: LeafCase, r: int)
    requires
        row.wf(),
        case == LeafCase::Short ==> 1 <= leaf_key_len(row, case) <= 33,
        case == LeafCase::Long ==> 1 <= leaf_key_len(row, case) <= 33,
    ensures
        leaf_row_rlc_model(row, case, r).mult == pow_f(r, leaf_row_len(row, case) as nat),
{
    let st0 = rlc_step(rlc_step(RlcState { rlc: 0, mult: 1 }, row.rlp1, r), row.rlp2, r);
    assert(st0.mult == pow_f(r, 2)) by {
        reveal_with_fuel(pow_f, 3);
    }
    lemma_pow_f_bounds(r, 2);
    match case {
        LeafCase::Short => {
            let k = leaf_key_len(row, case);
            lemma_rlc_fold_mult(st0, row.key_region().take(k), r);
            lemma_pow_f_adds(r, 2, k as nat);
        },
        LeafCase::Long => {
            let k = leaf_key_len(row, case);
            lemma_rlc_fold_mult(st0, row.key_region().take(1 + k), r);
            lemma_pow_f_adds(r, 2, (1 + k) as nat);
        },
        LeafCase::LastLevel => {},
        LeafCase::OneNibble => {},
    }
}

} // verus!
