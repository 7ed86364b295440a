//! The usage contract of the correlated multivariate sampler: its
//! dimension precondition and its error taxonomy.

use vstd::prelude::*;

verus! {

/// Why drawing correlated samples was refused.
#[derive(PartialEq, Eq, Structural, Debug)]
pub enum SamplerError {
    /// The covariance matrix is not square with the mean's dimension.
    DimensionMismatch,
    /// The covariance matrix has no Cholesky factor.
    NotPositiveDefinite,
}

/// The precondition of the correlated multivariate sampler: the flattened
/// row-major covariance matrix must be square with side length equal to the
/// mean's dimension.  Anything else is refused outright, never silently
/// truncated.
pub fn check_multivariate_dimensions(mean_length: usize, covariance_length: usize) -> (r: Result<
    (),
    SamplerError,
>)
    ensures
        r is Ok <==> covariance_length == mean_length * mean_length,
        r is Err ==> r == Result::<(), SamplerError>::Err(SamplerError::DimensionMismatch),
{
    match mean_length.checked_mul(mean_length) {
        Some(square) => {
            if covariance_length == square {
                Ok(())
            } else {
                Err(SamplerError::DimensionMismatch)
            }
        },
        None => {
            proof {
                assert(covariance_length < mean_length * mean_length);
            }
            Err(SamplerError::DimensionMismatch)
        },
    }
}

} // verus!
