//! Arithmetic in the prime field over which all RLC accumulators are
//! computed. Elements are kept reduced below the modulus; the spec-level
//! functions `add_f` and `mul_f` state the mathematical meaning of the
//! executable operations, and the lemmas below provide the modular-arithmetic
//! identities the fold proofs rely on.
//!
//! The RLC construction relies only on prime-field arithmetic, not on a
//! particular modulus; a proving system would typically run it over its own
//! (much larger) scalar field. A 64-bit prime is used here so that the
//! operations stay executable on machine words.

use vstd::prelude::*;
use vstd::arithmetic::div_mod::{
    lemma_add_mod_noop, lemma_add_mod_noop_right, lemma_mod_bound, lemma_mul_mod_noop_left,
    lemma_mul_mod_noop_right, lemma_small_mod,
};
use vstd::arithmetic::mul::{lemma_mul_is_associative, lemma_mul_is_distributive_add_other_way};

verus! {

/// The field modulus: a 64-bit prime, so that sums and products of reduced
/// elements fit in a `u128` before reduction.
pub const FIELD_MODULUS: u64 = 0xffff_ffff_0000_0001;

/// The modulus as a mathematical integer.
pub open spec fn field_p() -> int {
    FIELD_MODULUS as int
}

/// A field element, always reduced below `FIELD_MODULUS`.
#[derive(Clone, Copy, Debug, PartialEq, Eq, Structural)]
pub struct Fp {
    pub v: u64,
}

/// Field addition on mathematical integers.
pub open spec fn add_f(a: int, b: int) -> int {
    (a + b) % field_p()
}

/// Field multiplication on mathematical integers.
pub open spec fn mul_f(a: int, b: int) -> int {
    (a * b) % field_p()
}

impl Fp {
    /// A field element is well formed when it is reduced.
    pub open spec fn wf(self) -> bool {
        self.v < FIELD_MODULUS
    }

    /// The integer a field element stands for.
    pub open spec fn as_int(self) -> int {
        self.v as int
    }

    /// The additive identity.
    pub fn zero() -> (r: Fp)
        ensures
            r.wf(),
            r.as_int() == 0,
    {
        Fp { v: 0 }
    }

    /// The multiplicative identity.
    pub fn one() -> (r: Fp)
        ensures
            r.wf(),
            r.as_int() == 1,
    {
        Fp { v: 1 }
    }

    /// Reduces an arbitrary 64-bit value into the field.
    pub fn from_u64(x: u64) -> (r: Fp)
        ensures
            r.wf(),
            r.as_int() == (x as int) % field_p(),
            x < FIELD_MODULUS ==> r.as_int() == x,
    {
        proof {
            lemma_mod_bound(x as int, FIELD_MODULUS as int);
            if x < FIELD_MODULUS {
                lemma_small_mod(x as nat, FIELD_MODULUS as nat);
            }
        }
        Fp { v: x % FIELD_MODULUS }
    }

    /// Field addition.
    pub fn add(self, other: Fp) -> (r: Fp)
        requires
            self.wf(),
            other.wf(),
        ensures
            r.wf(),
            r.as_int() == add_f(self.as_int(), other.as_int()),
    {
        let s: u128 = self.v as u128 + other.v as u128;
        let m: u128 = s % (FIELD_MODULUS as u128);
        proof {
            lemma_mod_bound(s as int, FIELD_MODULUS as int);
        }
        Fp { v: m as u64 }
    }

    /// Field multiplication.
    pub fn mul(self, other: Fp) -> (r: Fp)
        requires
            self.wf(),
            other.wf(),
        ensures
            r.wf(),
            r.as_int() == mul_f(self.as_int(), other.as_int()),
    {
        proof {
            assert((self.v as int) * (other.v as int) <= 0xffff_ffff_ffff_ffff
                * 0xffff_ffff_ffff_ffff) by (nonlinear_arith)
                requires
                    self.v <= 0xffff_ffff_ffff_ffffu64,
                    other.v <= 0xffff_ffff_ffff_ffffu64,
            ;
        }
        let s: u128 = self.v as u128 * other.v as u128;
        let m: u128 = s % (FIELD_MODULUS as u128);
        proof {
            lemma_mod_bound(s as int, FIELD_MODULUS as int);
        }
        Fp { v: m as u64 }
    }
}

/// Field multiplication is associative.
pub proof fn lemma_mul_f_assoc(a: int, b: int, c: int)
    ensures
        mul_f(mul_f(a, b), c) == mul_f(a, mul_f(b, c)),
{
    lemma_mul_mod_noop_left(a * b, c, field_p());
    lemma_mul_is_associative(a, b, c);
    lemma_mul_mod_noop_right(a, b * c, field_p());
}

/// Folding two products of the same multiplier into an accumulator one after
/// the other is the same as folding the product of their combined
/// coefficient: the two-nibble form of one key byte.
pub proof fn lemma_add_two_products(x: int, a: int, b: int, m: int)
    ensures
        add_f(add_f(x, mul_f(a, m)), mul_f(b, m)) == add_f(x, mul_f(a + b, m)),
{
    lemma_mul_mod_noop_left(a + b, m, field_p());
    lemma_mul_is_distributive_add_other_way(m, a, b);
    lemma_add_mod_noop_right(x, a * m, field_p());
    lemma_add_mod_noop_right(x + (a * m) % field_p(), b * m, field_p());
    lemma_add_mod_noop_right(x, a * m + b * m, field_p());
    assert (add_f(x, mul_f(a, m)) == (x + a * m) % field_p());
    assert (add_f(add_f(x, mul_f(a, m)), mul_f(b, m)) == ((x + a * m) % field_p() + b * m)
        % field_p());
    lemma_add_mod_noop(x + a * m, b * m, field_p());
    lemma_add_mod_noop_right(x + a * m, b * m, field_p());
}

} // verus!
