//! The options of a forest.
use vstd::arithmetic::power2::{lemma2_to64, lemma_pow2_strictly_increases, lemma_pow2_unfold, pow2};
use vstd::prelude::*;

verus! {

/// How a forest is built.
#[derive(Clone, Debug, PartialEq, Eq)]
pub struct ForestOptions {
    /// The number of trees.
    pub n_trees: usize,
    /// The number of training points drawn for each tree. At most the number
    /// of training points.
    pub sample_size: usize,
    /// The depth at which a tree stops splitting. Where it is `None`, the
    /// depth is the base-2 logarithm of `sample_size`, rounded up.
    pub max_tree_depth: Option<usize>,
    /// How many coordinates of a split's normal vector, beyond the first, may
    /// be non-zero. Below the dimension of the points. At 0 every split is
    /// parallel to an axis.
    pub extension_level: usize,
}

impl Default for ForestOptions {
    fn default() -> (r: Self)
        ensures
            r.n_trees == 20,
            r.sample_size == 20,
            r.max_tree_depth.is_none(),
            r.extension_level == 0,
    {
        ForestOptions { n_trees: 20, sample_size: 20, max_tree_depth: None, extension_level: 0 }
    }
}

/// Whether `k` is the base-2 logarithm of `n`, rounded up: the least `k`
/// with `n <= 2^k`.
pub open spec fn is_ceil_log2(n: nat, k: nat) -> bool {
    &&& n <= pow2(k)
    &&& k > 0 ==> pow2((k - 1) as nat) < n
}

/// The base-2 logarithm of `n`, rounded up; 0 for `n == 0`.
pub open spec fn ceil_log2_spec(n: nat) -> nat
    decreases n,
{
    if n <= 1 {
        0
    } else {
        1 + ceil_log2_spec((n + 1) / 2)
    }
}

/// `ceil_log2_spec(n)` is the least `k` with `n <= 2^k`.
pub proof fn lemma_ceil_log2_bounds(n: nat)
    ensures
        is_ceil_log2(n, ceil_log2_spec(n)),
    decreases n,
{
    lemma2_to64();
    if n > 1 {
        let half = (n + 1) / 2;
        let k = ceil_log2_spec(half);
        lemma_ceil_log2_bounds(half);
        lemma_pow2_unfold(k + 1);
        if k > 0 {
            lemma_pow2_unfold(k);
        }
    }
}

/// `is_ceil_log2` names one number: two that fit are equal.
pub proof fn lemma_ceil_log2_unique(n: nat, a: nat, b: nat)
    requires
        is_ceil_log2(n, a),
        is_ceil_log2(n, b),
    ensures
        a == b,
{
    if a < b {
        if a < b - 1 {
            lemma_pow2_strictly_increases(a, (b - 1) as nat);
        }
    } else if b < a {
        if b < a - 1 {
            lemma_pow2_strictly_increases(b, (a - 1) as nat);
        }
    }
}

/// The base-2 logarithm of `n`, rounded up; 0 for `n == 0`.
pub fn ceil_log2(n: usize) -> (k: usize)
    ensures
        k == ceil_log2_spec(n as nat),
        is_ceil_log2(n as nat, k as nat),
{
    let mut k: usize = 0;
    let mut cap: usize = 1;
    proof {
        lemma2_to64();
    }
    while cap < n
        invariant
            cap == pow2(k as nat),
            k > 0 ==> pow2((k - 1) as nat) < n,
            k < cap,
        decreases usize::MAX - cap,
    {
        proof {
            lemma_pow2_unfold((k + 1) as nat);
        }
        if cap > usize::MAX / 2 {
            // 2^(k+1) no longer fits, and `n` lies below it
            proof {
                lemma_ceil_log2_bounds(n as nat);
                lemma_ceil_log2_unique(n as nat, (k + 1) as nat, ceil_log2_spec(n as nat));
            }
            return k + 1;
        }
        cap = cap * 2;
        k = k + 1;
    }
    proof {
        lemma_ceil_log2_bounds(n as nat);
        lemma_ceil_log2_unique(n as nat, k as nat, ceil_log2_spec(n as nat));
    }
    k
}

impl ForestOptions {
    /// The depth at which trees built with these options stop splitting: the
    /// one given, else the base-2 logarithm of `sample_size`, rounded up.
    pub open spec fn depth_limit_spec(self) -> nat {
        match self.max_tree_depth {
            Some(d) => d as nat,
            None => ceil_log2_spec(self.sample_size as nat),
        }
    }

    /// The depth at which trees built with these options stop splitting.
    pub fn depth_limit(&self) -> (k: usize)
        ensures
            k == self.depth_limit_spec(),
    {
        match self.max_tree_depth {
            Some(d) => d,
            None => ceil_log2(self.sample_size),
        }
    }
}

} // verus!
