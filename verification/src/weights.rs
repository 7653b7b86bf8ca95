use vstd::prelude::*;

use crate::errors::NoiseError;

verus! {

/// Whether a weight, given as the bit pattern of a non-negative
/// IEEE-754 binary32 number, denotes zero. Exactly the two patterns
/// with all bits below the sign bit clear (+0.0 and -0.0) do.
pub open spec fn spec_weight_is_zero(bits: u32) -> bool {
    bits & 0x7fff_ffff == 0
}

/// Validates the weight set of a combined generator, each weight given
/// as the bit pattern of a non-negative IEEE-754 binary32 number.
///
/// The combined generator normalizes by dividing through the sum of
/// its three weights, so a weight set that sums to zero is an error,
/// never a silent fallback. For non-negative weights the sum is zero
/// exactly when every weight is zero, which this check reads off the
/// bit patterns alone.
pub fn validate_weights(perlin_bits: u32, simplex_bits: u32, worley_bits: u32) -> (r: Result<
    (),
    NoiseError,
>)
    ensures
        spec_weight_is_zero(perlin_bits) && spec_weight_is_zero(simplex_bits)
            && spec_weight_is_zero(worley_bits) ==> r == Err::<(), NoiseError>(
            NoiseError::InvalidWeights,
        ),
        !(spec_weight_is_zero(perlin_bits) && spec_weight_is_zero(simplex_bits)
            && spec_weight_is_zero(worley_bits)) ==> r == Ok::<(), NoiseError>(()),
{
    if (perlin_bits & 0x7fff_ffff) == 0 && (simplex_bits & 0x7fff_ffff) == 0 && (worley_bits
        & 0x7fff_ffff) == 0 {
        Err(NoiseError::InvalidWeights)
    } else {
        Ok(())
    }
}

} // verus!
