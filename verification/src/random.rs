//! What the forest takes from the `rand` crate: the thread-local generator
//! and two ways of sampling without replacement.
use rand::seq::{IteratorRandom, SliceRandom};
use vstd::prelude::*;

verus! {

#[verifier::external_type_specification]
#[verifier::external_body]
pub struct ExThreadRng(rand::rngs::ThreadRng);

/// `rand::thread_rng`: a handle to the generator of the current thread.
/// Nothing is claimed of it.
pub assume_specification[ rand::thread_rng ]() -> (rng: rand::rngs::ThreadRng);

/// Whether `picked` takes its items from `pool`, each position of `pool` at
/// most once.
pub open spec fn is_selection<T, const N: usize>(picked: Seq<&[T; N]>, pool: Seq<[T; N]>) -> bool {
    exists|at: Seq<int>| selects(picked, pool, at)
}

/// Whether `picked[k]` is `pool[at[k]]` for every `k`, with no position
/// named twice.
pub open spec fn selects<T, const N: usize>(
    picked: Seq<&[T; N]>,
    pool: Seq<[T; N]>,
    at: Seq<int>,
) -> bool {
    &&& at.len() == picked.len()
    &&& at.no_duplicates()
    &&& forall|k: int|
        0 <= k < at.len() ==> 0 <= #[trigger] at[k] < pool.len() && *picked[k] == pool[at[k]]
}

/// `SliceRandom::choose_multiple` on a slice of points, collected: `amount`
/// points of `pool` (all of them, if it has fewer), no position of `pool`
/// taken twice, in random order.
///
/// The crate samples positions with `index::sample`, whose rejection sampler
/// expects fewer positions than there are once the slice is longer than
/// `u32::MAX`; such a call is left out.
#[verifier::external_body]
pub(crate) fn choose_points<'a, T, const N: usize>(
    pool: &'a [[T; N]],
    rng: &mut rand::rngs::ThreadRng,
    amount: usize,
) -> (picked: Vec<&'a [T; N]>)
    requires
        pool@.len() <= u32::MAX || amount < pool@.len(),
    ensures
        amount <= pool@.len() ==> picked@.len() == amount,
        amount > pool@.len() ==> picked@.len() == pool@.len(),
        is_selection(picked@, pool@),
{
    pool.choose_multiple(rng, amount).collect()
}

/// `IteratorRandom::choose_multiple` on the range `0..n`: `amount` distinct
/// indices below `n`, in no particular order.
#[verifier::external_body]
pub(crate) fn choose_indices(rng: &mut rand::rngs::ThreadRng, n: usize, amount: usize) -> (picked: Vec<usize>)
    requires
        amount <= n,
    ensures
        picked@.len() == amount,
        picked@.no_duplicates(),
        forall|k: int| 0 <= k < picked@.len() ==> #[trigger] picked@[k] < n,
{
    (0..n).choose_multiple(rng, amount)
}

} // verus!
