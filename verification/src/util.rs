//! Small shared utilities and the interfaces a sub-circuit presents to
//! the enclosing circuit.

use vstd::prelude::*;
use vstd::arithmetic::power2::{pow2, lemma_pow2_unfold, lemma_pow2_strictly_increases, lemma2_to64};
use crate::field::Fp;
use crate::challenges::Challenges;
use crate::cached_region::{CachedRegion, Error};

verus! {

/// A circuit fragment that verifies one part of the full block: it carries
/// every input needed to assign its own columns into a region window.
pub trait SubCircuit: Sized {
    /// Configuration of the sub-circuit.
    type Config;

    /// Number of rows at the bottom of the trace this sub-circuit cannot
    /// use.
    fn unusable_rows() -> usize;

    /// The public-instance column values this sub-circuit exposes.
    fn instance(&self) -> Vec<Vec<Fp>>;

    /// Assigns the columns owned by this sub-circuit into the window.
    fn synthesize_sub(
        &self,
        config: &Self::Config,
        challenges: &Challenges<Fp>,
        region: &mut CachedRegion,
    ) -> Result<(), Error>;
}

/// Constructor interface for a sub-circuit's configuration.
pub trait SubCircuitConfig: Sized {
    /// Constructor arguments.
    type ConfigArgs;

    /// Builds the configuration.
    fn new(args: Self::ConfigArgs) -> Self;
}

/// Ceiling of the base-two logarithm: the least `r` with `2^r >= n`, for
/// counts that fit a 32-bit quantity.
pub fn log2_ceil(n: usize) -> (r: u32)
    requires
        1 <= n <= u32::MAX,
    ensures
        pow2(r as nat) >= n,
        r >= 1 ==> pow2((r - 1) as nat) < n,
{
    let mut r: u32 = 0;
    let mut x: u64 = 1;
    proof {
        lemma2_to64();
    }
    while x < (n as u64)
        invariant
            1 <= n <= u32::MAX,
            x == pow2(r as nat),
            x >= 1,
            r <= 32,
            r == 0 || pow2((r - 1) as nat) < n,
        decreases 32 - r,
    {
        proof {
            if r >= 32 {
                lemma2_to64();
                if r > 32 {
                    lemma_pow2_strictly_increases(32, r as nat);
                }
                assert(false);
            }
            lemma_pow2_unfold((r + 1) as nat);
            lemma2_to64();
        }
        r = r + 1;
        x = x * 2;
    }
    r
}

} // verus!
