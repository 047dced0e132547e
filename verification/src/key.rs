//! Key accumulation along a trie path.
//!
//! A 32-byte trie key is addressed as 64 nibbles. Walking from the root to a
//! leaf, every branch consumes one nibble (its modified-child index), every
//! extension node consumes the nibbles of its key, and the terminal leaf
//! consumes whatever remains. The running state is a `KeyAccumulator`: the
//! RLC of the nibbles consumed so far, the multiplier for the next byte
//! position, and the count of consumed nibbles. Two nibbles folded at the
//! same byte position combine to that byte times the position's multiplier,
//! so folding all 64 nibbles reproduces the RLC of the raw key bytes.

use vstd::prelude::*;
use crate::fp::{add_f, field_p, lemma_add_two_products, lemma_mul_f_assoc, mul_f, Fp};
use crate::MptError;
use vstd::arithmetic::div_mod::{lemma_fundamental_div_mod, lemma_mod_bound, lemma_small_mod};

verus! {

/// Ghost state of a plain byte-RLC accumulator.
pub struct RlcState {
    pub rlc: int,
    pub mult: int,
}

/// Folding one byte into a byte-RLC accumulator: the byte enters at the
/// current multiplier and the multiplier advances by one power of `r`.
pub open spec fn rlc_step(st: RlcState, b: u8, r: int) -> RlcState {
    RlcState { rlc: add_f(st.rlc, mul_f(b as int, st.mult)), mult: mul_f(st.mult, r) }
}

/// Folding a byte sequence into a byte-RLC accumulator, left to right.
pub open spec fn rlc_fold(st: RlcState, bytes: Seq<u8>, r: int) -> RlcState
    decreases bytes.len(),
{
    if bytes.len() == 0 {
        st
    } else {
        rlc_fold(rlc_step(st, bytes.first(), r), bytes.drop_first(), r)
    }
}

/// The `n`th power of `r` in the field: the multiplier of the `n`th byte
/// position of an RLC.
pub open spec fn pow_f(r: int, n: nat) -> int
    decreases n,
{
    if n == 0 {
        1
    } else {
        mul_f(pow_f(r, (n - 1) as nat), r)
    }
}

/// A power of `r` is reduced.
pub proof fn lemma_pow_f_bounds(r: int, n: nat)
    ensures
        0 <= pow_f(r, n) < field_p(),
    decreases n,
{
    if n == 0 {
    } else {
        lemma_mod_bound(pow_f(r, (n - 1) as nat) * r, field_p());
    }
}

/// Powers of `r` compose additively in the exponent.
pub proof fn lemma_pow_f_adds(r: int, a: nat, b: nat)
    ensures
        pow_f(r, a + b) == mul_f(pow_f(r, a), pow_f(r, b)),
    decreases b,
{
    if b == 0 {
        lemma_pow_f_bounds(r, a);
        lemma_small_mod(pow_f(r, a) as nat, field_p() as nat);
    } else {
        lemma_pow_f_adds(r, a, (b - 1) as nat);
        lemma_mul_f_assoc(pow_f(r, a), pow_f(r, (b - 1) as nat), r);
    }
}

/// The multiplier leaving a byte fold advances by one power of `r` per byte
/// folded.
pub proof fn lemma_rlc_fold_mult(st: RlcState, bytes: Seq<u8>, r: int)
    requires
        0 <= st.mult < field_p(),
    ensures
        rlc_fold(st, bytes, r).mult == mul_f(st.mult, pow_f(r, bytes.len())),
    decreases bytes.len(),
{
    if bytes.len() == 0 {
        lemma_small_mod(st.mult as nat, field_p() as nat);
    } else {
        let st1 = rlc_step(st, bytes.first(), r);
        lemma_mod_bound(st.mult * r, field_p());
        lemma_rlc_fold_mult(st1, bytes.drop_first(), r);
        lemma_mul_f_assoc(st.mult, r, pow_f(r, (bytes.len() - 1) as nat));
        lemma_pow_f_adds(r, (bytes.len() - 1) as nat, 1);
        assert(pow_f(r, 1) == mul_f(1, r)) by {
            reveal_with_fuel(pow_f, 2);
        }
        lemma_mul_f_assoc(st.mult, pow_f(r, (bytes.len() - 1) as nat), r);
    }
}

/// Ghost state of the key-nibble accumulator. `high` records whether the
/// next nibble occupies the high half of the current byte position (times
/// 16, multiplier unchanged) or the low half (times 1, after which the
/// multiplier advances).
pub struct KeyState {
    pub rlc: int,
    pub mult: int,
    pub high: bool,
}

/// The accumulator state at the trie root: nothing consumed, multiplier one,
/// next nibble in the high position.
pub open spec fn init_key_state() -> KeyState {
    KeyState { rlc: 0, mult: 1, high: true }
}

/// Folding one nibble into the key accumulator.
pub open spec fn nib_step(st: KeyState, nib: u8, r: int) -> KeyState {
    if st.high {
        KeyState {
            rlc: add_f(st.rlc, mul_f(16 * (nib as int), st.mult)),
            mult: st.mult,
            high: false,
        }
    } else {
        KeyState {
            rlc: add_f(st.rlc, mul_f(nib as int, st.mult)),
            mult: mul_f(st.mult, r),
            high: true,
        }
    }
}

/// Folding a nibble sequence into the key accumulator, left to right.
pub open spec fn nib_fold(st: KeyState, nibs: Seq<u8>, r: int) -> KeyState
    decreases nibs.len(),
{
    if nibs.len() == 0 {
        st
    } else {
        nib_fold(nib_step(st, nibs.first(), r), nibs.drop_first(), r)
    }
}

/// The two nibbles of one byte, high half first.
pub open spec fn byte_nibs(b: u8) -> Seq<u8> {
    seq![((b as int) / 16) as u8, ((b as int) % 16) as u8]
}

/// The nibble sequence of a byte sequence.
pub open spec fn bytes_to_nibs(bs: Seq<u8>) -> Seq<u8>
    decreases bs.len(),
{
    if bs.len() == 0 {
        Seq::<u8>::empty()
    } else {
        byte_nibs(bs.first()) + bytes_to_nibs(bs.drop_first())
    }
}

/// A byte-RLC state read back as a key state expecting a high nibble.
pub open spec fn key_of_rlc(e: RlcState) -> KeyState {
    KeyState { rlc: e.rlc, mult: e.mult, high: true }
}

/// A nibble fold over a concatenation is the fold of the second part from
/// the fold of the first.
pub proof fn lemma_nib_fold_concat(st: KeyState, a: Seq<u8>, b: Seq<u8>, r: int)
    ensures
        nib_fold(st, a + b, r) == nib_fold(nib_fold(st, a, r), b, r),
    decreases a.len(),
{
    if a.len() == 0 {
        assert(a + b =~= b);
    } else {
        assert((a + b).first() == a.first());
        assert((a + b).drop_first() =~= a.drop_first() + b);
        lemma_nib_fold_concat(nib_step(st, a.first(), r), a.drop_first(), b, r);
    }
}

/// Appending one nibble to a fold performs one more step.
pub proof fn lemma_nib_fold_snoc(st: KeyState, s: Seq<u8>, x: u8, r: int)
    ensures
        nib_fold(st, s.push(x), r) == nib_step(nib_fold(st, s, r), x, r),
{
    reveal_with_fuel(nib_fold, 3);
    assert(s.push(x) =~= s + seq![x]);
    lemma_nib_fold_concat(st, s, seq![x], r);
    assert(seq![x].first() == x);
    assert(seq![x].drop_first() =~= Seq::<u8>::empty());
}

/// Appending one byte to a byte fold performs one more step.
pub proof fn lemma_rlc_fold_snoc(st: RlcState, s: Seq<u8>, x: u8, r: int)
    ensures
        rlc_fold(st, s.push(x), r) == rlc_step(rlc_fold(st, s, r), x, r),
    decreases s.len(),
{
    reveal_with_fuel(rlc_fold, 3);
    if s.len() == 0 {
        assert(s.push(x).first() == x);
        assert(s.push(x).drop_first() =~= Seq::<u8>::empty());
    } else {
        assert(s.push(x).first() == s.first());
        assert(s.push(x).drop_first() =~= s.drop_first().push(x));
        lemma_rlc_fold_snoc(rlc_step(st, s.first(), r), s.drop_first(), x, r);
    }
}

/// Folding the two nibbles of a byte from a high-nibble state is the same as
/// folding the byte itself into the byte RLC.
pub proof fn lemma_nib_pair_is_byte(st: KeyState, b: u8, r: int)
    requires
        st.high,
    ensures
        nib_fold(st, byte_nibs(b), r) == (KeyState {
            rlc: add_f(st.rlc, mul_f(b as int, st.mult)),
            mult: mul_f(st.mult, r),
            high: true,
        }),
{
    reveal_with_fuel(nib_fold, 3);
    let hi = (b as int) / 16;
    let lo = (b as int) % 16;
    let nibs = byte_nibs(b);
    assert(nibs.first() == hi as u8);
    assert(nibs.drop_first().first() == lo as u8);
    assert(nibs.drop_first().drop_first() =~= Seq::<u8>::empty());
    let st1 = nib_step(st, hi as u8, r);
    let st2 = nib_step(st1, lo as u8, r);
    assert(nib_fold(st, nibs, r) == st2);
    lemma_add_two_products(st.rlc, 16 * hi, lo, st.mult);
    lemma_fundamental_div_mod(b as int, 16);
    assert(16 * hi + lo == b as int);
}

/// Folding the nibbles of a byte sequence from a high-nibble state is the
/// same as folding the bytes themselves.
pub proof fn lemma_nib_fold_bytes(st: KeyState, bs: Seq<u8>, r: int)
    requires
        st.high,
    ensures
        nib_fold(st, bytes_to_nibs(bs), r) == key_of_rlc(
            rlc_fold(RlcState { rlc: st.rlc, mult: st.mult }, bs, r),
        ),
    decreases bs.len(),
{
    if bs.len() == 0 {
        assert(bytes_to_nibs(bs) =~= Seq::<u8>::empty());
    } else {
        let b = bs.first();
        lemma_nib_fold_concat(st, byte_nibs(b), bytes_to_nibs(bs.drop_first()), r);
        lemma_nib_pair_is_byte(st, b, r);
        let st1 = KeyState {
            rlc: add_f(st.rlc, mul_f(b as int, st.mult)),
            mult: mul_f(st.mult, r),
            high: true,
        };
        lemma_nib_fold_bytes(st1, bs.drop_first(), r);
    }
}

/// The nibble sequence of a byte sequence is twice as long.
pub proof fn lemma_bytes_to_nibs_len(bs: Seq<u8>)
    ensures
        bytes_to_nibs(bs).len() == 2 * bs.len(),
    decreases bs.len(),
{
    if bs.len() != 0 {
        lemma_bytes_to_nibs_len(bs.drop_first());
    }
}

/// **Key RLC round-trip**: chunk the 64 nibbles of a 32-byte key at any
/// point into a branch-consumed prefix and a leaf-consumed remainder; the
/// key RLC reconstructed by folding the prefix and then the remainder equals
/// the RLC computed directly over the raw key bytes with the same multiplier
/// table.
pub proof fn lemma_key_rlc_round_trip(key: Seq<u8>, d: int, r: int)
    requires
        key.len() == 32,
        0 <= d <= 64,
    ensures
        nib_fold(
            nib_fold(init_key_state(), bytes_to_nibs(key).take(d), r),
            bytes_to_nibs(key).skip(d),
            r,
        ) == key_of_rlc(rlc_fold(RlcState { rlc: 0, mult: 1 }, key, r)),
{
    let nibs = bytes_to_nibs(key);
    lemma_bytes_to_nibs_len(key);
    assert(nibs.take(d) + nibs.skip(d) =~= nibs);
    lemma_nib_fold_concat(init_key_state(), nibs.take(d), nibs.skip(d), r);
    lemma_nib_fold_bytes(init_key_state(), key, r);
}

/// Running state threaded through a trie path from the root toward the
/// terminal leaf: the key RLC so far, the multiplier for the next
/// contribution, the number of nibbles consumed, and whether the next nibble
/// sits in the high half of its byte (`c16`) or the low half (`c1`, the
/// negation).
#[derive(Clone, Copy, Debug, PartialEq, Eq, Structural)]
pub struct KeyAccumulator {
    pub rlc: Fp,
    pub mult: Fp,
    pub nibble_count: u64,
    pub c16: bool,
}

impl KeyAccumulator {
    /// Validity: field elements reduced, at most 64 nibbles consumed, and
    /// the nibble-position flag agreeing with the parity of the count.
    pub open spec fn wf(self) -> bool {
        &&& self.rlc.wf()
        &&& self.mult.wf()
        &&& self.nibble_count <= 64
        &&& (self.c16 <==> self.nibble_count % 2 == 0)
    }

    /// The ghost fold state this accumulator stands for.
    pub open spec fn state(self) -> KeyState {
        KeyState { rlc: self.rlc.as_int(), mult: self.mult.as_int(), high: self.c16 }
    }

    /// The accumulator at the trie root: `(rlc, mult, count) = (0, 1, 0)`.
    pub fn new_root() -> (acc: KeyAccumulator)
        ensures
            acc.wf(),
            acc.state() == init_key_state(),
            acc.nibble_count == 0,
    {
        KeyAccumulator { rlc: Fp::zero(), mult: Fp::one(), nibble_count: 0, c16: true }
    }
}

/// Consumes a single nibble (a branch's modified-child index, or a leaf's
/// lone remaining nibble) into the accumulator. Rejected when the path
/// would exceed 64 nibbles, which no valid 32-byte key can reach.
pub fn key_step_nibble(acc: &KeyAccumulator, nib: u8, r: Fp) -> (res: Result<
    KeyAccumulator,
    MptError,
>)
    requires
        acc.wf(),
        r.wf(),
        nib < 16,
    ensures
        match res {
            Ok(a2) => {
                &&& acc.nibble_count < 64
                &&& a2.wf()
                &&& a2.nibble_count == acc.nibble_count + 1
                &&& a2.state() == nib_step(acc.state(), nib, r.as_int())
            },
            Err(e) => e == MptError::NibbleCount && acc.nibble_count == 64,
        },
{
    if acc.nibble_count >= 64 {
        return Err(MptError::NibbleCount);
    }
    if acc.c16 {
        let c = Fp::from_u64(16 * (nib as u64));
        Ok(
            KeyAccumulator {
                rlc: acc.rlc.add(c.mul(acc.mult)),
                mult: acc.mult,
                nibble_count: acc.nibble_count + 1,
                c16: false,
            },
        )
    } else {
        let c = Fp::from_u64(nib as u64);
        Ok(
            KeyAccumulator {
                rlc: acc.rlc.add(c.mul(acc.mult)),
                mult: acc.mult.mul(r),
                nibble_count: acc.nibble_count + 1,
                c16: true,
            },
        )
    }
}

/// Consumes a nibble sequence (an extension-node key, or a leaf's remaining
/// key) into the accumulator. Rejected when the path would exceed 64
/// nibbles.
pub fn key_fold_nibbles(acc: &KeyAccumulator, nibs: &Vec<u8>, r: Fp) -> (res: Result<
    KeyAccumulator,
    MptError,
>)
    requires
        acc.wf(),
        r.wf(),
        forall|i: int| 0 <= i < nibs@.len() ==> nibs@[i] < 16,
    ensures
        match res {
            Ok(a2) => {
                &&& acc.nibble_count + nibs@.len() <= 64
                &&& a2.wf()
                &&& a2.nibble_count == acc.nibble_count + nibs@.len()
                &&& a2.state() == nib_fold(acc.state(), nibs@, r.as_int())
            },
            Err(e) => e == MptError::NibbleCount && acc.nibble_count + nibs@.len() > 64,
        },
{
    if nibs.len() as u64 > 64 - acc.nibble_count {
        return Err(MptError::NibbleCount);
    }
    let mut rlc = acc.rlc;
    let mut mult = acc.mult;
    let mut high = acc.c16;
    let mut count = acc.nibble_count;
    let mut i: usize = 0;
    while i < nibs.len()
        invariant
            i <= nibs@.len(),
            acc.wf(),
            r.wf(),
            rlc.wf(),
            mult.wf(),
            acc.nibble_count + nibs@.len() <= 64,
            forall|j: int| 0 <= j < nibs@.len() ==> nibs@[j] < 16,
            count == acc.nibble_count + i,
            (high <==> count % 2 == 0),
            (KeyState { rlc: rlc.as_int(), mult: mult.as_int(), high }) == nib_fold(
                acc.state(),
                nibs@.take(i as int),
                r.as_int(),
            ),
        decreases nibs@.len() - i,
    {
        let b = nibs[i];
        proof {
            assert(nibs@.take(i as int + 1) =~= nibs@.take(i as int).push(nibs@[i as int]));
            lemma_nib_fold_snoc(acc.state(), nibs@.take(i as int), nibs@[i as int], r.as_int());
        }
        if high {
            let c = Fp::from_u64(16 * (b as u64));
            rlc = rlc.add(c.mul(mult));
            high = false;
        } else {
            let c = Fp::from_u64(b as u64);
            rlc = rlc.add(c.mul(mult));
            mult = mult.mul(r);
            high = true;
        }
        count = count + 1;
        i = i + 1;
    }
    proof {
        assert(nibs@.take(nibs@.len() as int) =~= nibs@);
    }
    Ok(KeyAccumulator { rlc, mult, nibble_count: count, c16: high })
}

/// A plain byte-RLC accumulator: the RLC so far and the multiplier for the
/// next byte.
#[derive(Clone, Copy, Debug, PartialEq, Eq, Structural)]
pub struct RlcAcc {
    pub rlc: Fp,
    pub mult: Fp,
}

impl RlcAcc {
    /// Validity: both field elements reduced.
    pub open spec fn wf(self) -> bool {
        self.rlc.wf() && self.mult.wf()
    }

    /// The ghost fold state this accumulator stands for.
    pub open spec fn state(self) -> RlcState {
        RlcState { rlc: self.rlc.as_int(), mult: self.mult.as_int() }
    }

    /// The accumulator before any byte: `(rlc, mult) = (0, 1)`.
    pub fn start() -> (st: RlcAcc)
        ensures
            st.wf(),
            st.state() == (RlcState { rlc: 0, mult: 1 }),
    {
        RlcAcc { rlc: Fp::zero(), mult: Fp::one() }
    }

    /// Folds one byte into the accumulator.
    pub fn push_byte(self, b: u8, r: Fp) -> (st: RlcAcc)
        requires
            self.wf(),
            r.wf(),
        ensures
            st.wf(),
            st.state() == rlc_step(self.state(), b, r.as_int()),
    {
        let c = Fp::from_u64(b as u64);
        RlcAcc { rlc: self.rlc.add(c.mul(self.mult)), mult: self.mult.mul(r) }
    }

    /// Folds the byte range `bytes[start..end]` into the accumulator.
    pub fn push_range(self, bytes: &Vec<u8>, start: usize, end: usize, r: Fp) -> (st: RlcAcc)
        requires
            self.wf(),
            r.wf(),
            start <= end <= bytes@.len(),
        ensures
            st.wf(),
            st.state() == rlc_fold(
                self.state(),
                bytes@.subrange(start as int, end as int),
                r.as_int(),
            ),
    {
        let mut cur = self;
        let mut i: usize = start;
        while i < end
            invariant
                start <= i <= end <= bytes@.len(),
                self.wf(),
                r.wf(),
                cur.wf(),
                cur.state() == rlc_fold(
                    self.state(),
                    bytes@.subrange(start as int, i as int),
                    r.as_int(),
                ),
            decreases end - i,
        {
            proof {
                assert(bytes@.subrange(start as int, i as int + 1) =~= bytes@.subrange(
                    start as int,
                    i as int,
                ).push(bytes@[i as int]));
                lemma_rlc_fold_snoc(
                    self.state(),
                    bytes@.subrange(start as int, i as int),
                    bytes@[i as int],
                    r.as_int(),
                );
            }
            cur = cur.push_byte(bytes[i], r);
            i = i + 1;
        }
        cur
    }
}

/// Extracts the nibble sequence of the byte range `bytes[start..end]`, high
/// halves first.
pub fn nibbles_of_range(bytes: &Vec<u8>, start: usize, end: usize) -> (nibs: Vec<u8>)
    requires
        start <= end <= bytes@.len(),
    ensures
        nibs@ == bytes_to_nibs(bytes@.subrange(start as int, end as int)),
        forall|i: int| 0 <= i < nibs@.len() ==> nibs@[i] < 16,
{
    let mut out: Vec<u8> = Vec::new();
    let mut i: usize = start;
    while i < end
        invariant
            start <= i <= end <= bytes@.len(),
            out@ == bytes_to_nibs(bytes@.subrange(start as int, i as int)),
            forall|j: int| 0 <= j < out@.len() ==> out@[j] < 16,
        decreases end - i,
    {
        proof {
            assert(bytes@.subrange(start as int, i as int + 1) =~= bytes@.subrange(
                start as int,
                i as int,
            ).push(bytes@[i as int]));
            lemma_bytes_to_nibs_snoc(bytes@.subrange(start as int, i as int), bytes@[i as int]);
        }
        let b = bytes[i];
        out.push(b / 16);
        out.push(b % 16);
        i = i + 1;
    }
    out
}

/// Appends the elements of `src` to `dst`.
pub(crate) fn append_all(dst: &mut Vec<u8>, src: &Vec<u8>)
    ensures
        final(dst)@ == old(dst)@ + src@,
{
    let mut i: usize = 0;
    while i < src.len()
        invariant
            i <= src@.len(),
            dst@ == old(dst)@ + src@.take(i as int),
        decreases src@.len() - i,
    {
        proof {
            assert(src@.take(i as int + 1) =~= src@.take(i as int).push(src@[i as int]));
            assert(old(dst)@ + src@.take(i as int + 1) =~= (old(dst)@ + src@.take(i as int)).push(
                src@[i as int],
            ));
        }
        dst.push(src[i]);
        i = i + 1;
    }
    proof {
        assert(src@.take(src@.len() as int) =~= src@);
    }
}

/// Appending one byte to a sequence appends its two nibbles.
proof fn lemma_bytes_to_nibs_snoc(s: Seq<u8>, x: u8)
    ensures
        bytes_to_nibs(s.push(x)) == bytes_to_nibs(s) + byte_nibs(x),
    decreases s.len(),
{
    reveal_with_fuel(bytes_to_nibs, 3);
    if s.len() == 0 {
        assert(s.push(x).first() == x);
        assert(s.push(x).drop_first() =~= Seq::<u8>::empty());
        assert(bytes_to_nibs(s) =~= Seq::<u8>::empty());
        assert(byte_nibs(x) + Seq::<u8>::empty() =~= byte_nibs(x));
        assert(Seq::<u8>::empty() + byte_nibs(x) =~= byte_nibs(x));
    } else {
        assert(s.push(x).first() == s.first());
        assert(s.push(x).drop_first() =~= s.drop_first().push(x));
        lemma_bytes_to_nibs_snoc(s.drop_first(), x);
        assert(byte_nibs(s.first()) + (bytes_to_nibs(s.drop_first()) + byte_nibs(x)) =~= (byte_nibs(
            s.first(),
        ) + bytes_to_nibs(s.drop_first())) + byte_nibs(x));
    }
}

} // verus!
