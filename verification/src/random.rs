//! Uniform random candidates and sub-range starts. The draw itself comes
//! from an outside generator; everything around it — bounds handling and the
//! degenerate single-value range — is verified.

use vstd::prelude::*;
use crate::u256::{U256, be_bytes_value};
use rand::rngs::StdRng;
use num_bigint::RandBigInt;

verus! {

#[verifier::external_type_specification]
#[verifier::external_body]
pub struct ExStdRng(StdRng);

/// Relies on `num_bigint::RandBigInt::gen_biguint_below`: a value uniformly
/// below `bound`, whatever the generator's state; `bound` must be nonzero,
/// since the call rejects an empty range.
#[verifier::external_body]
fn random_below(rng: &mut StdRng, bound: &[u8]) -> (r: Vec<u8>)
    requires
        bound@.len() == 32,
        be_bytes_value(bound@) >= 1,
    ensures
        r@.len() == 32,
        be_bytes_value(r@) < be_bytes_value(bound@),
{
    let b = num_bigint::BigUint::from_bytes_be(bound);
    let raw = rng.gen_biguint_below(&b).to_bytes_be();
    let mut out = vec![0u8; 32];
    out[32 - raw.len()..].copy_from_slice(&raw);
    out
}

/// Relies on `rand::RngCore::fill_bytes`: 32 uniformly random bytes.
/// Nothing is promised of their values.
#[verifier::external_body]
fn random_fill32(rng: &mut StdRng) -> (r: Vec<u8>)
    ensures
        r@.len() == 32,
{
    let mut buf = vec![0u8; 32];
    rand::RngCore::fill_bytes(rng, &mut buf);
    buf
}

/// Draws a value in the inclusive interval `[lower, upper]`. A range of one
/// value short-circuits to that value and never reaches the random
/// primitive, which would reject an empty interval; the whole key space is
/// drawn as 32 raw random bytes, since its count is one past the largest
/// representable bound.
pub fn random_in_range(rng: &mut StdRng, lower: &U256, upper: &U256) -> (r: U256)
    requires
        lower.as_nat() <= upper.as_nat(),
    ensures
        lower.as_nat() <= r.as_nat() <= upper.as_nat(),
        lower.as_nat() == upper.as_nat() ==> r.as_nat() == lower.as_nat(),
{
    if lower.equals(upper) {
        return *lower;
    }
    let width = upper.sub(lower);
    let top = u64::MAX;
    if width.l0 == top && width.l1 == top && width.l2 == top && width.l3 == top {
        let bytes = random_fill32(rng);
        return U256::from_be_bytes(bytes.as_slice());
    }
    proof {
        let maxed = U256 { l0: top, l1: top, l2: top, l3: top };
        if width.as_nat() == maxed.as_nat() {
            width.lemma_as_nat_injective(maxed);
        }
    }
    let bound = width.succ();
    let bound_bytes = bound.to_be_bytes();
    let offset_bytes = random_below(rng, bound_bytes.as_slice());
    let offset = U256::from_be_bytes(offset_bytes.as_slice());
    lower.add(&offset)
}

} // verus!
