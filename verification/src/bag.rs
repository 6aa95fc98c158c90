//! The seven-bag randomizer: a deterministic choice of the n-th piece kind
//! from a session seed, with each block of seven picks a permutation of the
//! seven kinds.

use vstd::prelude::*;

use rand::rngs::StdRng;
use rand::seq::SliceRandom;
use rand::SeedableRng;

use crate::mino::MinoType;

verus! {

/// The seven non-Garbage kinds in their fixed order, as one bag holds them
/// before it is shuffled.
pub open spec fn base_bag() -> Seq<MinoType> {
    seq![
        MinoType::I,
        MinoType::O,
        MinoType::L,
        MinoType::J,
        MinoType::Z,
        MinoType::S,
        MinoType::T,
    ]
}

/// The order that shuffling `items` under `seed` produces. The result of
/// the seeded shuffle depends on its arguments alone, but stating which
/// permutation comes out would mean writing out the generator; the name
/// stands for it, and `shuffle_seeded` ties the name to the call.
pub uninterp spec fn shuffled_of(items: Seq<MinoType>, seed: u64) -> Seq<MinoType>;

/// Relies on rand's `StdRng::seed_from_u64` and `SliceRandom::shuffle`:
/// `StdRng` seeded from a `u64` is a deterministic generator (a function of
/// the seed alone), and `shuffle` reorders the slice in place by swaps, so
/// the result is a permutation of the input of the same length.
#[verifier::external_body]
fn shuffle_seeded(items: Vec<MinoType>, seed: u64) -> (r: Vec<MinoType>)
    ensures
        r@ == shuffled_of(items@, seed),
        r@.len() == items@.len(),
        r@.to_multiset() == items@.to_multiset(),
{
    let mut items = items;
    let mut rng = StdRng::seed_from_u64(seed);
    items.shuffle(&mut rng);
    items
}

/// The seed of the shuffled bag that pick `nth` draws from: the session
/// seed plus the bag index, with wraparound.
pub open spec fn bag_seed(nth: usize, seed: u64) -> u64 {
    ((seed + nth / 7) % 0x1_0000_0000_0000_0000) as u64
}

/// The kind that `rand_mino` returns: the `nth % 7`-th entry of the bag
/// shuffled under `bag_seed(nth, seed)`.
pub open spec fn rand_mino_spec(nth: usize, seed: u64) -> MinoType {
    shuffled_of(base_bag(), bag_seed(nth, seed))[(nth % 7) as int]
}

/// Chooses a mino with the 7-bag randomizer.
///
/// # Arguments
///
/// - `nth`: `n`th mino (0-indexed)
/// - `seed`: seed for RNG
///
/// The result is a pure function of the two arguments; the same pair gives
/// the same kind in every call, which makes sessions reproducible. Each
/// contiguous block of seven `nth` values with the same `nth / 7` draws the
/// seven entries of one shuffled bag, a permutation of all seven kinds.
pub fn rand_mino(nth: usize, seed: u64) -> (r: MinoType)
    ensures
        r == rand_mino_spec(nth, seed),
        r != MinoType::Garbage,
        shuffled_of(base_bag(), bag_seed(nth, seed)).len() == 7,
        shuffled_of(base_bag(), bag_seed(nth, seed)).to_multiset() == base_bag().to_multiset(),
{
    let nth_bag: usize = nth / 7;
    let minoes: Vec<MinoType> = vec![
        MinoType::I,
        MinoType::O,
        MinoType::L,
        MinoType::J,
        MinoType::Z,
        MinoType::S,
        MinoType::T,
    ];
    proof {
        assert(minoes@ =~= base_bag());
    }
    let nth_in_bag: usize = nth % 7;
    let shuffled = shuffle_seeded(minoes, seed.wrapping_add(nth_bag as u64));
    let r = shuffled[nth_in_bag];
    proof {
        assert(seed.wrapping_add(nth_bag as u64) == bag_seed(nth, seed));
        assert(shuffled@[nth_in_bag as int] == rand_mino_spec(nth, seed));
        broadcast use vstd::seq_lib::group_to_multiset_ensures;

        assert(shuffled@.contains(r));
        assert(shuffled@.to_multiset().count(r) > 0);
        if r == MinoType::Garbage {
            assert(!base_bag().contains(r));
            assert(base_bag().to_multiset().count(r) == 0);
            assert(false);
        }
    }
    r
}

/// One whole bag: the seven picks `rand_mino(7 * bag .. 7 * bag + 7, seed)`
/// in order. They form a permutation of the seven non-Garbage kinds: every
/// kind appears exactly once, so no two of the seven picks are equal.
pub fn bag_of(bag: usize, seed: u64) -> (r: Vec<MinoType>)
    requires
        bag <= (usize::MAX - 6) / 7,
    ensures
        r@.len() == 7,
        forall|j: int| 0 <= j < 7 ==> (#[trigger] r@[j]) == rand_mino_spec((7 * bag + j) as usize, seed),
        r@.to_multiset() == base_bag().to_multiset(),
        r@.no_duplicates(),
{
    proof {
        assert(7 * bag + 6 <= usize::MAX) by (nonlinear_arith)
            requires
                bag <= (usize::MAX - 6) / 7,
        ;
    }
    let base: usize = 7 * bag;
    let mut r: Vec<MinoType> = Vec::new();
    let mut j: usize = 0;
    #[verifier::loop_isolation(false)]
    while j < 7
        invariant
            j <= 7,
            r@.len() == j,
            forall|q: int|
                0 <= q < j ==> (#[trigger] r@[q]) == rand_mino_spec((7 * bag + q) as usize, seed),
            forall|q: int|
                0 <= q < j ==> (#[trigger] r@[q]) == shuffled_of(
                    base_bag(),
                    bag_seed(base, seed),
                )[q],
            j > 0 ==> shuffled_of(base_bag(), bag_seed(base, seed)).len() == 7,
            j > 0 ==> shuffled_of(base_bag(), bag_seed(base, seed)).to_multiset()
                == base_bag().to_multiset(),
        decreases 7 - j,
    {
        let pick = rand_mino(base + j, seed);
        proof {
            let nth = (base + j) as usize;
            assert(nth / 7 == bag && nth % 7 == j) by (nonlinear_arith)
                requires
                    nth == 7 * bag + j,
                    0 <= j < 7,
            ;
            assert(base / 7 == bag && base % 7 == 0) by (nonlinear_arith)
                requires
                    base == 7 * bag,
            ;
            assert(bag_seed(nth, seed) == bag_seed(base, seed));
            assert(rand_mino_spec(nth, seed) == rand_mino_spec((7 * bag + j as int) as usize, seed));
        }
        r.push(pick);
        j += 1;
    }
    proof {
        let sh = shuffled_of(base_bag(), bag_seed(base, seed));
        assert(r@ =~= sh);
        assert(base_bag().no_duplicates());
        broadcast use vstd::seq_lib::group_to_multiset_ensures;

        base_bag().lemma_multiset_has_no_duplicates();
        assert forall|x: MinoType| r@.to_multiset().contains(x) implies r@.to_multiset().count(x)
            == 1 by {
            assert(base_bag().to_multiset().count(x) > 0);
            assert(base_bag().contains(x));
            assert(base_bag().to_multiset().count(x) == 1);
        }
        r@.lemma_multiset_has_no_duplicates_conv();
    }
    r
}

/// Law of determinism: the pick is a pure function of its two arguments.
/// `rand_mino` always returns `rand_mino_spec(nth, seed)`, so any two of
/// its results for the same `nth` and `seed` are the same kind.
pub proof fn lemma_rand_mino_deterministic(nth: usize, seed: u64, a: MinoType, b: MinoType)
    requires
        a == rand_mino_spec(nth, seed),
        b == rand_mino_spec(nth, seed),
    ensures
        a == b,
{
}

} // verus!
