//! The variant generator.
//!
//! Draws a fixed number of distinct question indices from a test's pool,
//! in random order. Every outcome is a permutation prefix of the pool, so
//! the result is always distinct and in range; only the order and choice
//! are random.

use vstd::prelude::*;

use rand::seq::SliceRandom;

verus! {

/// Relies on rand's `SliceRandom::shuffle` with `thread_rng`: it permutes
/// the slice in place, so the elements afterwards are exactly the elements
/// before, in some order. Nothing is assumed about which order.
#[verifier::external_body]
fn shuffle_indices(v: &mut Vec<usize>)
    ensures
        final(v)@.to_multiset() == old(v)@.to_multiset(),
{
    v.as_mut_slice().shuffle(&mut rand::thread_rng());
}

/// Samples `min(sample_size, pool_size)` distinct indices from
/// `[0, pool_size)`, in random order. An empty pool is a configuration
/// error the caller must reject before calling.
pub fn generate(pool_size: usize, sample_size: usize) -> (r: Vec<usize>)
    requires
        pool_size >= 1,
    ensures
        r@.len() == if sample_size <= pool_size {
            sample_size as int
        } else {
            pool_size as int
        },
        r@.no_duplicates(),
        forall|i: int| 0 <= i < r@.len() ==> r@[i] < pool_size,
{
    let mut pool: Vec<usize> = Vec::new();
    let mut i: usize = 0;
    while i < pool_size
        invariant
            i <= pool_size,
            pool@.len() == i,
            forall|j: int| 0 <= j < i ==> pool@[j] == j,
        decreases pool_size - i,
    {
        pool.push(i);
        i = i + 1;
    }
    let ghost before = pool@;
    proof {
        assert(before.no_duplicates());
        before.lemma_multiset_has_no_duplicates();
    }
    shuffle_indices(&mut pool);
    proof {
        before.to_multiset_ensures();
        pool@.to_multiset_ensures();
        assert forall|x: usize| pool@.contains(x) implies x < pool_size by {
            assert(pool@.to_multiset().count(x) > 0);
            assert(before.to_multiset().count(x) > 0);
            assert(before.contains(x));
        }
        assert forall|x: usize| pool@.to_multiset().contains(x) implies pool@.to_multiset().count(
            x,
        ) == 1 by {
            assert(before.to_multiset().contains(x));
        }
        pool@.lemma_multiset_has_no_duplicates_conv();
        assert(pool@.len() == before.len());
        assert(forall|j: int| 0 <= j < pool@.len() ==> pool@.contains(pool@[j]));
    }
    let k = if sample_size <= pool_size {
        sample_size
    } else {
        pool_size
    };
    let ghost shuffled = pool@;
    pool.truncate(k);
    proof {
        assert(pool@ == shuffled.subrange(0, k as int));
        assert forall|p: int, q: int|
            0 <= p < q < pool@.len() implies pool@[p] != pool@[q] by {
            assert(shuffled[p] != shuffled[q]);
        }
        assert(forall|j: int| 0 <= j < pool@.len() ==> pool@[j] == shuffled[j]);
    }
    pool
}

} // verus!
