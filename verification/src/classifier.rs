//! Row classification. Two structural flag bits select which of four
//! mutually exclusive cases a leaf row represents; the boolean-product
//! formulas below are the row encoding of that choice, and the classifier
//! decodes them into a tagged case, rejecting non-boolean flags.

use vstd::prelude::*;
use crate::MptError;

verus! {

/// The four structural cases of a leaf row.
#[derive(Clone, Copy, Debug, PartialEq, Eq, Structural)]
pub enum LeafCase {
    /// Single-byte RLP length prefix; the leaf value fits in one byte.
    Short,
    /// Extra RLP length byte; the row starts with the marker byte 248.
    Long,
    /// No key nibbles remain; only the value follows.
    LastLevel,
    /// Exactly one key nibble remains, packed with the 0x30 prefix.
    OneNibble,
}

/// Indicator product for `is_long`: `flag1 * (1 - flag2)`.
pub open spec fn ind_is_long(f1: int, f2: int) -> int {
    f1 * (1 - f2)
}

/// Indicator product for `is_short`: `(1 - flag1) * flag2`.
pub open spec fn ind_is_short(f1: int, f2: int) -> int {
    (1 - f1) * f2
}

/// Indicator product for `last_level`: `flag1 * flag2`.
pub open spec fn ind_last_level(f1: int, f2: int) -> int {
    f1 * f2
}

/// Indicator product for `one_nibble`: `(1 - flag1) * (1 - flag2)`.
pub open spec fn ind_one_nibble(f1: int, f2: int) -> int {
    (1 - f1) * (1 - f2)
}

/// What classification returns: the decoded case for boolean flags, and a
/// booleanity failure for anything else.
pub open spec fn classify_spec(f1: u8, f2: u8) -> Result<LeafCase, MptError> {
    if f1 > 1 || f2 > 1 {
        Err(MptError::MalformedFlags)
    } else if f1 == 1 && f2 == 0 {
        Ok(LeafCase::Long)
    } else if f1 == 0 && f2 == 1 {
        Ok(LeafCase::Short)
    } else if f1 == 1 && f2 == 1 {
        Ok(LeafCase::LastLevel)
    } else {
        Ok(LeafCase::OneNibble)
    }
}

/// Decodes the two flag bits of a leaf row into its structural case. Both
/// flags must be boolean; any other value is a constraint failure.
pub fn classify(flag1: u8, flag2: u8) -> (r: Result<LeafCase, MptError>)
    ensures
        r == classify_spec(flag1, flag2),
{
    if flag1 > 1 || flag2 > 1 {
        Err(MptError::MalformedFlags)
    } else if flag1 == 1 && flag2 == 0 {
        Ok(LeafCase::Long)
    } else if flag1 == 0 && flag2 == 1 {
        Ok(LeafCase::Short)
    } else if flag1 == 1 && flag2 == 1 {
        Ok(LeafCase::LastLevel)
    } else {
        Ok(LeafCase::OneNibble)
    }
}

/// A value satisfies the booleanity constraint `x * x == x` exactly when it
/// is 0 or 1.
pub proof fn lemma_booleanity(f: int)
    ensures
        f * f == f <==> (f == 0 || f == 1),
{
    assert(f * f == f <==> (f == 0 || f == 1)) by (nonlinear_arith);
}

/// **Classifier exclusivity**: for boolean flags, exactly one of the four
/// indicator products is 1 and the other three are 0, and the active
/// indicator agrees with the decoded case.
pub proof fn lemma_classifier_exclusivity(f1: int, f2: int)
    requires
        f1 == 0 || f1 == 1,
        f2 == 0 || f2 == 1,
    ensures
        ind_is_long(f1, f2) + ind_is_short(f1, f2) + ind_last_level(f1, f2) + ind_one_nibble(
            f1,
            f2,
        ) == 1,
        0 <= ind_is_long(f1, f2) <= 1,
        0 <= ind_is_short(f1, f2) <= 1,
        0 <= ind_last_level(f1, f2) <= 1,
        0 <= ind_one_nibble(f1, f2) <= 1,
        ind_is_long(f1, f2) == 1 <==> classify_spec(f1 as u8, f2 as u8) == Ok::<
            LeafCase,
            MptError,
        >(LeafCase::Long),
        ind_is_short(f1, f2) == 1 <==> classify_spec(f1 as u8, f2 as u8) == Ok::<
            LeafCase,
            MptError,
        >(LeafCase::Short),
        ind_last_level(f1, f2) == 1 <==> classify_spec(f1 as u8, f2 as u8) == Ok::<
            LeafCase,
            MptError,
        >(LeafCase::LastLevel),
        ind_one_nibble(f1, f2) == 1 <==> classify_spec(f1 as u8, f2 as u8) == Ok::<
            LeafCase,
            MptError,
        >(LeafCase::OneNibble),
{
}

} // verus!
