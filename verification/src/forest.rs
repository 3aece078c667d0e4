//! The forest: an ensemble of isolation trees, each grown from its own
//! random sample of the training data, and the anomaly score they give.
use crate::error::Error;
use crate::options::ForestOptions;
use crate::random::{choose_points, is_selection, selects};
use crate::scalar::{one_spec, two_spec, zero_spec, ForestFloat};
use crate::tree::{c_factor, c_factor_spec, lemma_same_draws_same_tree, planes, Tree};
use vstd::prelude::*;

verus! {

/// An extended isolation forest over points of `N` coordinates.
pub struct Forest<T: ForestFloat, const N: usize> {
    /// The path length by which those of a point are divided in its score.
    avg_path_length_c: T::Wide,
    trees: Vec<Tree<T, N>>,
}

/// The path length by which a forest of the given sample size divides: the
/// average for a tree of that many items, and one where a tree holds at
/// most one sample, so that no path has any length.
pub open spec fn normalizer_spec<W: ForestFloat>(sample_size: usize) -> W {
    if sample_size >= 2 {
        c_factor_spec::<W>(sample_size)
    } else {
        one_spec::<W>()
    }
}

/// The path lengths of `values` in the first `k` trees, added up from zero
/// in the order of the trees.
pub open spec fn path_sum<T: ForestFloat, const N: usize>(
    trees: Seq<Tree<T, N>>,
    values: [T; N],
    k: int,
) -> T::Wide
    where
        T::Wide: ForestFloat,
    decreases k,
{
    if k <= 0 {
        zero_spec::<T::Wide>()
    } else {
        path_sum(trees, values, k - 1).add_spec(trees[k - 1].path_length_spec(values))
    }
}

/// The anomaly score that trees with the normalizing length `c` give to
/// `values`: `2^(-E / c)`, where `E` is the average of its path lengths.
pub open spec fn score_of<T: ForestFloat, const N: usize>(
    c: T::Wide,
    trees: Seq<Tree<T, N>>,
    values: [T; N],
) -> T::Wide
    where
        T::Wide: ForestFloat,
{
    let average = path_sum(trees, values, trees.len() as int).div_spec(
        <T::Wide>::from_u64_spec(trees.len() as u64),
    );
    two_spec::<T::Wide>().powf_spec(average.neg_spec().div_spec(c))
}

/// Whether `tree` may have been grown for a forest with these options from
/// this training data: it is an isolation tree of `sample_size` training
/// points, none taken twice.
pub open spec fn grown_from<T: ForestFloat, const N: usize>(
    tree: Tree<T, N>,
    training_data: Seq<[T; N]>,
    options: ForestOptions,
) -> bool
    where
        T::Wide: ForestFloat,
{
    exists|picked: Seq<&[T; N]>| grown_from_sample(tree, training_data, options, picked)
}

/// Whether `tree` is an isolation tree of `picked`, and `picked` a sample of
/// the training data as the options ask for.
pub open spec fn grown_from_sample<T: ForestFloat, const N: usize>(
    tree: Tree<T, N>,
    training_data: Seq<[T; N]>,
    options: ForestOptions,
    picked: Seq<&[T; N]>,
) -> bool
    where
        T::Wide: ForestFloat,
{
    &&& picked.len() == options.sample_size
    &&& is_selection(picked, training_data)
    &&& tree.isolates(picked, options.depth_limit_spec(), options.extension_level)
}

/// All the points, in their order.
fn all_points<'a, T, const N: usize>(pool: &'a [[T; N]]) -> (picked: Vec<&'a [T; N]>)
    ensures
        picked@.len() == pool@.len(),
        is_selection(picked@, pool@),
{
    let mut picked: Vec<&'a [T; N]> = Vec::new();
    let mut k: usize = 0;
    while k < pool.len()
        invariant
            k <= pool@.len(),
            picked@.len() == k,
            forall|j: int| 0 <= j < k ==> *#[trigger] picked@[j] == pool@[j],
        decreases pool@.len() - k,
    {
        picked.push(&pool[k]);
        k += 1;
    }
    proof {
        let at = Seq::new(pool@.len(), |j: int| j);
        assert(selects(picked@, pool@, at));
    }
    picked
}

impl<T: ForestFloat, const N: usize> Forest<T, N> where T::Wide: ForestFloat {
    /// The trees.
    pub closed spec fn trees_spec(self) -> Seq<Tree<T, N>> {
        self.trees@
    }

    /// The path length by which those of a point are divided in its score.
    pub closed spec fn normalizer(self) -> T::Wide {
        self.avg_path_length_c
    }

    /// The anomaly score of `values`.
    pub open spec fn score_spec(self, values: [T; N]) -> T::Wide {
        score_of(self.normalizer(), self.trees_spec(), values)
    }

    /// Whether the forest may have been built from this training data with
    /// these options.
    pub open spec fn built_from(self, training_data: Seq<[T; N]>, options: ForestOptions) -> bool {
        &&& self.trees_spec().len() == options.n_trees
        &&& self.normalizer() == normalizer_spec::<T::Wide>(options.sample_size)
        &&& forall|t: int|
            0 <= t < self.trees_spec().len() ==> grown_from(
                #[trigger] self.trees_spec()[t],
                training_data,
                options,
            )
    }

    /// Builds a forest from the training data: `n_trees` trees, each an
    /// isolation tree of its own random sample of `sample_size` points.
    ///
    /// Fails where the training data has fewer points than one sample, or
    /// the points have no coordinates; and, that aside, where the extension
    /// level is not below the number of coordinates.
    pub fn from_slice(training_data: &[[T; N]], options: &ForestOptions) -> (built: Result<Self, Error>)
        ensures
            training_data@.len() < options.sample_size || N == 0 <==> built == Err::<Self, Error>(
                Error::InsufficientTrainingData,
            ),
            training_data@.len() >= options.sample_size && N != 0 && options.extension_level > N - 1
                <==> built == Err::<Self, Error>(Error::ExtensionLevelExceedsDimensions),
            built is Ok <==> training_data@.len() >= options.sample_size && N != 0
                && options.extension_level < N,
            built is Ok ==> built->Ok_0.built_from(training_data@, *options),
    {
        if training_data.len() < options.sample_size || N == 0 {
            return Err(Error::InsufficientTrainingData);
        } else if options.extension_level > N - 1 {
            return Err(Error::ExtensionLevelExceedsDimensions);
        }
        let max_tree_depth = options.depth_limit();
        let mut rng = rand::thread_rng();
        let mut trees: Vec<Tree<T, N>> = Vec::new();
        let mut t: usize = 0;
        while t < options.n_trees
            invariant
                t <= options.n_trees,
                trees@.len() == t,
                options.sample_size <= training_data@.len(),
                options.extension_level < N,
                max_tree_depth == options.depth_limit_spec(),
                forall|j: int| 0 <= j < t ==> grown_from(#[trigger] trees@[j], training_data@, *options),
            decreases options.n_trees - t,
        {
            // sampling all of more than `u32::MAX` points is no sampling: take them as they are
            let tree_sample = if options.sample_size < training_data.len() || training_data.len()
                <= 0xFFFF_FFFF {
                choose_points(training_data, &mut rng, options.sample_size)
            } else {
                all_points(training_data)
            };
            let tree = Tree::new(
                tree_sample.as_slice(),
                &mut rng,
                max_tree_depth,
                options.extension_level,
            );
            proof {
                assert(grown_from_sample(tree, training_data@, *options, tree_sample@));
            }
            trees.push(tree);
            t += 1;
        }
        let avg_path_length_c = if options.sample_size >= 2 {
            c_factor(options.sample_size)
        } else {
            <T::Wide>::from_u64(1)
        };
        Ok(Forest { avg_path_length_c, trees })
    }

    /// The anomaly score of `values`: near one for a point that is isolated
    /// after few splits, lower for one that needs many.
    pub fn score(&self, values: &[T; N]) -> (s: T::Wide)
        ensures
            s == self.score_spec(*values),
    {
        let mut path_length = <T::Wide>::from_u64(0);
        let mut k: usize = 0;
        while k < self.trees.len()
            invariant
                k <= self.trees@.len(),
                path_length == path_sum(self.trees@, *values, k as int),
            decreases self.trees@.len() - k,
        {
            path_length = path_length.add(self.trees[k].path_length(values));
            k += 1;
        }
        // the average of the path lengths over all trees
        let eh = path_length.div(<T::Wide>::from_u64(self.trees.len() as u64));
        <T::Wide>::from_u64(2).powf(eh.neg().div(self.avg_path_length_c))
    }

    /// Puts a forest together from its parts, as they were taken from
    /// another one.
    pub fn from_parts(avg_path_length_c: T::Wide, trees: Vec<Tree<T, N>>) -> (forest: Self)
        ensures
            forest.normalizer() == avg_path_length_c,
            forest.trees_spec() == trees@,
    {
        Forest { avg_path_length_c, trees }
    }

    /// The path length by which those of a point are divided in its score.
    pub fn avg_path_length_c(&self) -> (c: T::Wide)
        ensures
            c == self.normalizer(),
    {
        self.avg_path_length_c
    }

    /// The trees.
    pub fn trees(&self) -> (trees: &Vec<Tree<T, N>>)
        ensures
            trees@ == self.trees_spec(),
    {
        &self.trees
    }
}

/// Whether two trees were grown from the same draws: both are isolation
/// trees of `picked`, and their hyperplanes, in the order of their choice,
/// are the same.
pub open spec fn grown_alike<T: ForestFloat, const N: usize>(
    a: Tree<T, N>,
    b: Tree<T, N>,
    picked: Seq<&[T; N]>,
    options: ForestOptions,
) -> bool
    where
        T::Wide: ForestFloat,
{
    &&& a.isolates(picked, options.depth_limit_spec(), options.extension_level)
    &&& b.isolates(picked, options.depth_limit_spec(), options.extension_level)
    &&& planes(a.root) == planes(b.root)
}

/// Building a forest is deterministic once the draws are fixed: two forests
/// built from the same training data with the same options, whose trees
/// are, one by one, isolation trees of the same sample with the same
/// hyperplanes in the order of their choice, have the same trees and the
/// same normalizing length, and give every point the same score.
pub proof fn lemma_same_draws_same_forest<T: ForestFloat, const N: usize>(
    a: Forest<T, N>,
    b: Forest<T, N>,
    training_data: Seq<[T; N]>,
    options: ForestOptions,
    picked: Seq<Seq<&[T; N]>>,
)
    where
        T::Wide: ForestFloat,
    requires
        a.built_from(training_data, options),
        b.built_from(training_data, options),
        picked.len() == options.n_trees,
        forall|t: int|
            0 <= t < picked.len() ==> grown_alike(
                #[trigger] a.trees_spec()[t],
                b.trees_spec()[t],
                picked[t],
                options,
            ),
    ensures
        a.trees_spec() == b.trees_spec(),
        a.normalizer() == b.normalizer(),
        forall|values: [T; N]| a.score_spec(values) == b.score_spec(values),
{
    assert forall|t: int| 0 <= t < picked.len() implies a.trees_spec()[t] == b.trees_spec()[t] by {
        lemma_same_draws_same_tree(
            a.trees_spec()[t].root,
            b.trees_spec()[t].root,
            picked[t],
            0,
            options.depth_limit_spec(),
            options.extension_level,
        );
    }
    assert(a.trees_spec() =~= b.trees_spec());
}

} // verus!
