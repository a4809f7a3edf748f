//! The quantized ordering key used for every weight map.
//!
//! A weight magnitude is carried as one of three classes: not-a-number,
//! infinite (either sign), or finite.  A finite value is represented by its
//! tenths bucket: the value scaled by ten and floored, so that two noisy
//! magnitudes landing in the same bucket are one key.  The order is total by
//! construction and deliberately quirky: not-a-number sorts above everything
//! else, infinities collapse below every finite value.  It is not a
//! corrected IEEE ordering and must not be "fixed": stored maps are keyed by
//! exactly this order.

use vstd::prelude::*;

verus! {

use core::cmp::Ordering;

/// A total-ordered, quantized weight key.
#[derive(Debug, Clone, Copy, PartialEq, Eq, Hash, Structural)]
pub enum WeightKey {
    /// An infinite magnitude, of either sign.
    Infinite,
    /// A finite magnitude, as its tenths bucket: the magnitude scaled by
    /// ten and floored toward negative infinity.
    Finite(i64),
    /// A not-a-number magnitude.
    NotANumber,
}

/// The total order on keys: not-a-number above everything, infinities below
/// every finite value, finite values by their tenths bucket.
pub open spec fn key_cmp(a: WeightKey, b: WeightKey) -> Ordering {
    match (a, b) {
        (WeightKey::NotANumber, WeightKey::NotANumber) => Ordering::Equal,
        (WeightKey::NotANumber, _) => Ordering::Greater,
        (_, WeightKey::NotANumber) => Ordering::Less,
        (WeightKey::Infinite, WeightKey::Infinite) => Ordering::Equal,
        (WeightKey::Infinite, _) => Ordering::Less,
        (_, WeightKey::Infinite) => Ordering::Greater,
        (WeightKey::Finite(x), WeightKey::Finite(y)) => if x < y {
            Ordering::Less
        } else if x == y {
            Ordering::Equal
        } else {
            Ordering::Greater
        },
    }
}

/// `a` sorts at or below `b`.
pub open spec fn key_le(a: WeightKey, b: WeightKey) -> bool {
    key_cmp(a, b) != Ordering::Greater
}

impl PartialOrd for WeightKey {
    fn partial_cmp(&self, other: &WeightKey) -> (r: Option<Ordering>) {
        Some(
            match (self, other) {
                (WeightKey::NotANumber, WeightKey::NotANumber) => Ordering::Equal,
                (WeightKey::NotANumber, _) => Ordering::Greater,
                (_, WeightKey::NotANumber) => Ordering::Less,
                (WeightKey::Infinite, WeightKey::Infinite) => Ordering::Equal,
                (WeightKey::Infinite, _) => Ordering::Less,
                (_, WeightKey::Infinite) => Ordering::Greater,
                (WeightKey::Finite(x), WeightKey::Finite(y)) => if x < y {
                    Ordering::Less
                } else if x == y {
                    Ordering::Equal
                } else {
                    Ordering::Greater
                },
            },
        )
    }
}

impl vstd::std_specs::cmp::PartialOrdSpecImpl for WeightKey {
    open spec fn obeys_partial_cmp_spec() -> bool {
        true
    }

    open spec fn partial_cmp_spec(&self, other: &WeightKey) -> Option<Ordering> {
        Some(key_cmp(*self, *other))
    }
}

/// Key comparison agrees with key equality: two keys compare `Equal`
/// exactly when they are the same key.  In particular two finite keys are
/// one key exactly when their tenths buckets coincide, however far apart
/// the unquantized magnitudes were.
pub proof fn lemma_key_eq_is_same_bucket(a: WeightKey, b: WeightKey)
    ensures
        (key_cmp(a, b) == Ordering::Equal) <==> a == b,
        (WeightKey::Finite(a->0) == WeightKey::Finite(b->0)) <==> (a->0 == b->0),
{
}

/// The order's special cases: a not-a-number key compares greater than
/// every other key and equal to other not-a-number keys; an infinite key
/// compares less than every finite key and equal to other infinite keys,
/// regardless of the infinity's sign, which is not carried at all.
pub proof fn lemma_key_order_special_cases(a: WeightKey, b: WeightKey)
    ensures
        a is NotANumber && b is NotANumber ==> key_cmp(a, b) == Ordering::Equal,
        a is NotANumber && !(b is NotANumber) ==> key_cmp(a, b) == Ordering::Greater,
        a is Infinite && b is Finite ==> key_cmp(a, b) == Ordering::Less,
        a is Infinite && b is Infinite ==> key_cmp(a, b) == Ordering::Equal,
{
}

/// The key order is total: reflexive, antisymmetric, transitive, and any
/// two keys are comparable.
pub proof fn lemma_key_order_total(a: WeightKey, b: WeightKey, c: WeightKey)
    ensures
        key_le(a, a),
        key_le(a, b) || key_le(b, a),
        key_le(a, b) && key_le(b, a) ==> a == b,
        key_le(a, b) && key_le(b, c) ==> key_le(a, c),
{
}

} // verus!
