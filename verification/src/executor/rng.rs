//! A small pseudo-random number generator.

use vstd::prelude::*;

verus! {

/// Number of values of a `u64`.
pub open spec fn two_to_64() -> int {
    0x1_0000_0000_0000_0000
}

/// The seed that follows a given seed.
pub open spec fn next_seed(seed: u64) -> u64 {
    ((seed + 0xA076_1D64_78BD_642Fu64) % two_to_64()) as u64
}

/// The number generated from a seed: the exclusive or of the two halves of a
/// 128-bit product.
pub open spec fn wyrand(seed: u64) -> u64 {
    let product = seed * (seed ^ 0xE703_7ED1_A0B4_28DBu64);
    ((product % two_to_64()) as u64) ^ ((product / two_to_64()) as u64)
}

/// The multiply-shift reduction of a number to the range `0..upper_bound`.
pub open spec fn reduced(number: u64, upper_bound: u64) -> int {
    (number * upper_bound) / two_to_64()
}

/// A pseudo-random number generator based on Wang Yi's Wyrand.
#[derive(Clone, Debug)]
pub struct Rng {
    seed: u64,
}

impl Rng {
    /// The current seed.
    pub closed spec fn seed(self) -> u64 {
        self.seed
    }

    /// Creates a new generator with the provided seed.
    pub fn new(seed: u64) -> (rng: Self)
        ensures
            rng.seed() == seed,
    {
        Rng { seed }
    }

    /// Generates a pseudo-random number within the range `0..2^64`.
    pub fn gen(&mut self) -> (number: u64)
        ensures
            final(self).seed() == next_seed(old(self).seed()),
            number == wyrand(final(self).seed()),
    {
        let seed: u64 = self.seed.wrapping_add(0xA076_1D64_78BD_642F);
        proof {
            let sum = self.seed + 0xA076_1D64_78BD_642Fu64;
            if sum < two_to_64() {
                assert(sum % two_to_64() == sum);
            } else {
                assert(sum % two_to_64() == sum - two_to_64());
            }
        }
        self.seed = seed;
        let mixed: u64 = seed ^ 0xE703_7ED1_A0B4_28DB;
        assert(seed * mixed <= u128::MAX) by (nonlinear_arith)
            requires
                seed <= u64::MAX,
                mixed <= u64::MAX,
        ;
        let t: u128 = seed as u128 * mixed as u128;
        assert(t as u64 == t % 0x1_0000_0000_0000_0000u128) by (bit_vector);
        assert((t >> 64) == t / 0x1_0000_0000_0000_0000u128) by (bit_vector);
        (t as u64) ^ (t >> 64) as u64
    }

    /// Generates a pseudo-random number within the range `0..upper_bound`.
    ///
    /// This generator is biased as it uses the fast (but crude) multiply-shift
    /// method. The bias is negligible, however, as long as the bound is much
    /// smaller than 2^64.
    pub fn gen_bounded(&mut self, upper_bound: u64) -> (number: u64)
        ensures
            final(self).seed() == next_seed(old(self).seed()),
            number == reduced(wyrand(final(self).seed()), upper_bound),
            upper_bound > 0 ==> number < upper_bound,
    {
        let n: u64 = self.gen();
        assert(n * upper_bound <= u128::MAX) by (nonlinear_arith)
            requires
                n <= u64::MAX,
                upper_bound <= u64::MAX,
        ;
        let product: u128 = n as u128 * upper_bound as u128;
        assert((product >> 64) == product / 0x1_0000_0000_0000_0000u128) by (bit_vector);
        assert(upper_bound > 0 ==> product / 0x1_0000_0000_0000_0000u128 < upper_bound) by {
            if upper_bound > 0 {
                assert(n * upper_bound < 0x1_0000_0000_0000_0000 * upper_bound)
                    by (nonlinear_arith)
                    requires
                        n < 0x1_0000_0000_0000_0000,
                        upper_bound > 0,
                ;
            }
        }
        assert(product / 0x1_0000_0000_0000_0000u128 <= u64::MAX) by {
            assert(n * upper_bound <= 0xFFFF_FFFF_FFFF_FFFF * 0xFFFF_FFFF_FFFF_FFFF)
                by (nonlinear_arith)
                requires
                    n <= 0xFFFF_FFFF_FFFF_FFFF,
                    upper_bound <= 0xFFFF_FFFF_FFFF_FFFF,
            ;
        }
        (product >> 64) as u64
    }
}

/// Seeds follow one another at a constant distance, modulo the number of values of a
/// `u64`, so that each seed has its own successor.
pub proof fn law_seeds(seed: u64, other: u64)
    ensures
        next_seed(seed) == if seed + 0xA076_1D64_78BD_642F <= 0xFFFF_FFFF_FFFF_FFFF {
            seed + 0xA076_1D64_78BD_642F
        } else {
            seed + 0xA076_1D64_78BD_642F - 0x1_0000_0000_0000_0000
        },
        seed != other ==> next_seed(seed) != next_seed(other),
{
}

/// The number generated from a seed combines the two 64-bit halves of the product of
/// the seed with its exclusive or with a constant.
pub proof fn law_generated_number(seed: u64, high: u64, low: u64)
    requires
        seed * (seed ^ 0xE703_7ED1_A0B4_28DBu64) == high * 0x1_0000_0000_0000_0000 + low,
    ensures
        wyrand(seed) == low ^ high,
{
}

/// Numbers are reduced to a range in proportion: the range is divided into as many
/// intervals of the same length as there are values, and larger numbers never yield
/// smaller values.
pub proof fn law_reduction(number: u64, other: u64, upper_bound: u64)
    requires
        upper_bound > 0,
    ensures
        0 <= reduced(number, upper_bound) < upper_bound,
        reduced(number, upper_bound) * 0x1_0000_0000_0000_0000 <= number * upper_bound < (reduced(
            number,
            upper_bound,
        ) + 1) * 0x1_0000_0000_0000_0000,
        number <= other ==> reduced(number, upper_bound) <= reduced(other, upper_bound),
{
    assert(0 <= number * upper_bound < 0x1_0000_0000_0000_0000 * upper_bound) by (nonlinear_arith)
        requires
            number < 0x1_0000_0000_0000_0000,
            upper_bound > 0,
    ;
    if number <= other {
        assert(number * upper_bound <= other * upper_bound) by (nonlinear_arith)
            requires
                number <= other,
        ;
    }
}

} // verus!
