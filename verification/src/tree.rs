//! Isolation trees: their construction by recursive partitioning, and the
//! length of the path on which a point travels through one.
use crate::geometry::{
    choose_hyperplane, determinate_direction, direction_spec, is_split_plane, routed, split_samples,
    Direction,
};
use crate::scalar::{one_spec, two_spec, zero_spec, ForestFloat};
use vstd::prelude::*;

verus! {

/// A leaf.
pub struct ExNode {
    /// The number of samples that reached this leaf when the tree was built.
    pub num_samples: usize,
}

/// A split.
pub struct InNode<T, const N: usize> {
    /// The subtree of the samples on the left of the hyperplane.
    pub left: Box<Node<T, N>>,
    /// The subtree of the samples on the right of the hyperplane.
    pub right: Box<Node<T, N>>,
    /// The normal vector of the hyperplane.
    pub n: [T; N],
    /// The intercept: a point through which the hyperplane passes.
    pub p: [T; N],
}

/// A node of an isolation tree.
pub enum Node<T, const N: usize> {
    Ex(ExNode),
    In(InNode<T, N>),
}

/// An isolation tree.
pub struct Tree<T, const N: usize> {
    pub root: Node<T, N>,
}

/// Euler's constant, to ten decimal places: 0.5772156649.
pub open spec fn euler_gamma_spec<W: ForestFloat>() -> W {
    W::from_u64_spec(5772156649).div_spec(W::from_u64_spec(10000000000))
}

/// The average path length of an unsuccessful search in a binary search
/// tree of `n` items: `2 (ln(n - 1) + gamma) - 2 (n - 1) / n`.
pub open spec fn c_factor_spec<W: ForestFloat>(n: usize) -> W {
    let items = W::from_u64_spec(n as u64);
    let less_one = items.sub_spec(one_spec::<W>());
    two_spec::<W>().mul_spec(less_one.ln_spec().add_spec(euler_gamma_spec::<W>())).sub_spec(
        two_spec::<W>().mul_spec(less_one).div_spec(items),
    )
}

/// The average path length of an unsuccessful search in a binary search
/// tree of `n` items. It is defined from two items on.
pub fn c_factor<W: ForestFloat>(n: usize) -> (c: W)
    requires
        n >= 2,
    ensures
        c == c_factor_spec::<W>(n),
{
    let one = W::from_u64(1);
    let two = W::from_u64(2);
    let gamma = W::from_u64(5772156649).div(W::from_u64(10000000000));
    let items = W::from_u64(n as u64);
    let less_one = items.sub(one);
    two.mul(less_one.ln().add(gamma)).sub(two.mul(less_one).div(items))
}

/// What a leaf of `num_samples` samples adds to a path: nothing where it
/// holds at most one sample, else the average length of the search that
/// would tell its samples apart.
pub open spec fn leaf_correction_spec<W: ForestFloat>(num_samples: usize) -> W {
    if num_samples <= 1 {
        zero_spec::<W>()
    } else {
        c_factor_spec::<W>(num_samples)
    }
}

/// The length of the path on which `values` travels from `node` to a leaf:
/// one for each split passed, added on the way back up to what the leaf
/// adds.
pub open spec fn path_length_spec<T: ForestFloat, const N: usize>(
    node: Node<T, N>,
    values: [T; N],
) -> T::Wide
    where
        T::Wide: ForestFloat,
    decreases node,
{
    match node {
        Node::Ex(leaf) => leaf_correction_spec::<T::Wide>(leaf.num_samples),
        Node::In(split) => one_spec::<T::Wide>().add_spec(
            path_length_spec(
                match direction_spec(values, split.n, split.p) {
                    Direction::Left => *split.left,
                    Direction::Right => *split.right,
                },
                values,
            ),
        ),
    }
}

/// The length of the path on which `values` travels from `node` to a leaf.
pub fn path_length_recurse<T: ForestFloat, const N: usize>(
    node: &Node<T, N>,
    values: &[T; N],
) -> (len: T::Wide)
    where
        T::Wide: ForestFloat,
    ensures
        len == path_length_spec(*node, *values),
    decreases node,
{
    match node {
        Node::Ex(ex_node) => {
            if ex_node.num_samples <= 1 {
                <T::Wide>::from_u64(0)
            } else {
                c_factor(ex_node.num_samples)
            }
        },
        Node::In(in_node) => {
            let below = match determinate_direction(values, &in_node.n, &in_node.p) {
                Direction::Left => path_length_recurse(&*in_node.left, values),
                Direction::Right => path_length_recurse(&*in_node.right, values),
            };
            <T::Wide>::from_u64(1).add(below)
        },
    }
}

/// Whether `node` is an isolation tree of `samples`, grown from `depth` on
/// with splitting stopped at `max_depth`.
///
/// Where the depth has reached the limit, or at most one sample is left,
/// the node is a leaf that counts the samples. Everywhere else it is a split
/// by a hyperplane fit for the samples, and its children are isolation trees
/// of the samples on either side, one level deeper.
pub open spec fn isolates<T: ForestFloat, const N: usize>(
    node: Node<T, N>,
    samples: Seq<&[T; N]>,
    depth: nat,
    max_depth: nat,
    extension_level: usize,
) -> bool
    where
        T::Wide: ForestFloat,
    decreases node,
{
    match node {
        Node::Ex(leaf) => {
            &&& depth >= max_depth || samples.len() <= 1
            &&& leaf.num_samples == samples.len()
        },
        Node::In(split) => {
            &&& depth < max_depth
            &&& samples.len() > 1
            &&& is_split_plane(samples, extension_level, split.p, split.n)
            &&& isolates(
                *split.left,
                routed(samples, split.n, split.p, Direction::Left),
                depth + 1,
                max_depth,
                extension_level,
            )
            &&& isolates(
                *split.right,
                routed(samples, split.n, split.p, Direction::Right),
                depth + 1,
                max_depth,
                extension_level,
            )
        },
    }
}

/// Grows an isolation tree of the samples by recursive partitioning: a leaf
/// once the depth limit is reached or at most one sample is left, else a
/// split by a random hyperplane, with a subtree for each side.
pub fn make_node<T: ForestFloat, const N: usize>(
    samples: &[&[T; N]],
    rng: &mut rand::rngs::ThreadRng,
    current_tree_depth: usize,
    max_tree_depth: usize,
    extension_level: usize,
) -> (node: Node<T, N>)
    where
        T::Wide: ForestFloat,
    requires
        extension_level < N,
    ensures
        isolates(node, samples@, current_tree_depth as nat, max_tree_depth as nat, extension_level),
    decreases max_tree_depth - current_tree_depth,
{
    let num_samples = samples.len();
    if current_tree_depth >= max_tree_depth || num_samples <= 1 {
        Node::Ex(ExNode { num_samples })
    } else {
        let (p, n) = choose_hyperplane(samples, extension_level, rng);
        let (samples_left, samples_right) = split_samples(samples, &n, &p);
        let left = make_node(
            samples_left.as_slice(),
            rng,
            current_tree_depth + 1,
            max_tree_depth,
            extension_level,
        );
        let right = make_node(
            samples_right.as_slice(),
            rng,
            current_tree_depth + 1,
            max_tree_depth,
            extension_level,
        );
        Node::In(InNode { left: Box::new(left), right: Box::new(right), n, p })
    }
}

/// The leaf that counts `num_samples` samples.
pub open spec fn leaf_of<T, const N: usize>(num_samples: usize) -> Node<T, N> {
    Node::Ex(ExNode { num_samples })
}

/// A leaf adds nothing to a path where it holds at most one sample, and
/// the average search length for its samples where it holds more.
pub proof fn lemma_leaf_correction<T: ForestFloat, const N: usize>(num_samples: usize, values: [T; N])
    where
        T::Wide: ForestFloat,
    ensures
        num_samples <= 1 ==> path_length_spec(leaf_of::<T, N>(num_samples), values) == zero_spec::<
            T::Wide,
        >(),
        num_samples >= 2 ==> path_length_spec(leaf_of::<T, N>(num_samples), values) == c_factor_spec::<
            T::Wide,
        >(num_samples),
{
}

/// The hyperplanes of a tree as pairs `(p, n)`, in the order in which
/// growing chooses them: that of a split, then those of its left subtree,
/// then those of its right subtree.
pub open spec fn planes<T, const N: usize>(node: Node<T, N>) -> Seq<([T; N], [T; N])>
    decreases node,
{
    match node {
        Node::Ex(_) => Seq::empty(),
        Node::In(split) => seq![(split.p, split.n)] + planes(*split.left) + planes(*split.right),
    }
}

/// Two isolation trees of the same samples whose hyperplanes both start a
/// common sequence of draws are the same tree.
proof fn lemma_grown_alike<T: ForestFloat, const N: usize>(
    a: Node<T, N>,
    b: Node<T, N>,
    samples: Seq<&[T; N]>,
    depth: nat,
    max_depth: nat,
    extension_level: usize,
    drawn: Seq<([T; N], [T; N])>,
)
    where
        T::Wide: ForestFloat,
    requires
        isolates(a, samples, depth, max_depth, extension_level),
        isolates(b, samples, depth, max_depth, extension_level),
        planes(a).is_prefix_of(drawn),
        planes(b).is_prefix_of(drawn),
    ensures
        a == b,
    decreases a,
{
    match (a, b) {
        (Node::In(sa), Node::In(sb)) => {
            let (la, ra) = (planes(*sa.left), planes(*sa.right));
            let (lb, rb) = (planes(*sb.left), planes(*sb.right));
            assert(planes(a)[0] == (sa.p, sa.n));
            assert(planes(b)[0] == (sb.p, sb.n));
            assert(planes(a)[0] == drawn[0]);
            assert(planes(b)[0] == drawn[0]);
            let after_plane = drawn.skip(1);
            assert(la.is_prefix_of(after_plane)) by {
                assert forall|i: int| 0 <= i < la.len() implies la[i] == after_plane[i] by {
                    assert(planes(a)[1 + i] == la[i]);
                    assert(planes(a)[1 + i] == drawn[1 + i]);
                }
                assert(la =~= after_plane.subrange(0, la.len() as int));
            }
            assert(lb.is_prefix_of(after_plane)) by {
                assert forall|i: int| 0 <= i < lb.len() implies lb[i] == after_plane[i] by {
                    assert(planes(b)[1 + i] == lb[i]);
                    assert(planes(b)[1 + i] == drawn[1 + i]);
                }
                assert(lb =~= after_plane.subrange(0, lb.len() as int));
            }
            lemma_grown_alike(
                *sa.left,
                *sb.left,
                routed(samples, sa.n, sa.p, Direction::Left),
                depth + 1,
                max_depth,
                extension_level,
                after_plane,
            );
            let after_left = after_plane.skip(la.len() as int);
            assert(ra.is_prefix_of(after_left)) by {
                assert forall|i: int| 0 <= i < ra.len() implies ra[i] == after_left[i] by {
                    assert(planes(a)[1 + la.len() + i] == ra[i]);
                    assert(planes(a)[1 + la.len() + i] == drawn[1 + la.len() + i]);
                }
                assert(ra =~= after_left.subrange(0, ra.len() as int));
            }
            assert(rb.is_prefix_of(after_left)) by {
                assert forall|i: int| 0 <= i < rb.len() implies rb[i] == after_left[i] by {
                    assert(planes(b)[1 + lb.len() + i] == rb[i]);
                    assert(planes(b)[1 + lb.len() + i] == drawn[1 + lb.len() + i]);
                }
                assert(rb =~= after_left.subrange(0, rb.len() as int));
            }
            lemma_grown_alike(
                *sa.right,
                *sb.right,
                routed(samples, sa.n, sa.p, Direction::Right),
                depth + 1,
                max_depth,
                extension_level,
                after_left,
            );
        },
        _ => {},
    }
}

/// Growing a tree is deterministic once the draws are fixed: two isolation
/// trees of the same samples whose hyperplanes, in the order of their
/// choice, are the same, are the same tree, and every point travels the
/// same path length through both.
pub proof fn lemma_same_draws_same_tree<T: ForestFloat, const N: usize>(
    a: Node<T, N>,
    b: Node<T, N>,
    samples: Seq<&[T; N]>,
    depth: nat,
    max_depth: nat,
    extension_level: usize,
)
    where
        T::Wide: ForestFloat,
    requires
        isolates(a, samples, depth, max_depth, extension_level),
        isolates(b, samples, depth, max_depth, extension_level),
        planes(a) == planes(b),
    ensures
        a == b,
        forall|values: [T; N]| path_length_spec(a, values) == path_length_spec(b, values),
{
    lemma_grown_alike(a, b, samples, depth, max_depth, extension_level, planes(a));
}

/// The number of samples that the leaves of a tree count, all together.
pub open spec fn leaf_total<T, const N: usize>(node: Node<T, N>) -> nat
    decreases node,
{
    match node {
        Node::Ex(leaf) => leaf.num_samples as nat,
        Node::In(split) => leaf_total(*split.left) + leaf_total(*split.right),
    }
}

/// The number of splits on the longest way from a node down to a leaf.
pub open spec fn height<T, const N: usize>(node: Node<T, N>) -> nat
    decreases node,
{
    match node {
        Node::Ex(_) => 0,
        Node::In(split) => {
            let (l, r) = (height(*split.left), height(*split.right));
            1 + if l >= r {
                l
            } else {
                r
            }
        },
    }
}

/// A hyperplane sends every sample to one side or the other.
pub proof fn lemma_routes_every_sample<T: ForestFloat, const N: usize>(
    samples: Seq<&[T; N]>,
    n: [T; N],
    p: [T; N],
)
    ensures
        routed(samples, n, p, Direction::Left).len() + routed(samples, n, p, Direction::Right).len()
            == samples.len(),
    decreases samples.len(),
{
    if samples.len() > 0 {
        lemma_routes_every_sample(samples.drop_last(), n, p);
    }
}

/// The leaves of an isolation tree count every sample once.
pub proof fn lemma_leaves_count_samples<T: ForestFloat, const N: usize>(
    node: Node<T, N>,
    samples: Seq<&[T; N]>,
    depth: nat,
    max_depth: nat,
    extension_level: usize,
)
    where
        T::Wide: ForestFloat,
    requires
        isolates(node, samples, depth, max_depth, extension_level),
    ensures
        leaf_total(node) == samples.len(),
    decreases node,
{
    match node {
        Node::Ex(_) => {},
        Node::In(split) => {
            lemma_routes_every_sample(samples, split.n, split.p);
            lemma_leaves_count_samples(
                *split.left,
                routed(samples, split.n, split.p, Direction::Left),
                depth + 1,
                max_depth,
                extension_level,
            );
            lemma_leaves_count_samples(
                *split.right,
                routed(samples, split.n, split.p, Direction::Right),
                depth + 1,
                max_depth,
                extension_level,
            );
        },
    }
}

/// An isolation tree never splits below the depth limit: a node that was
/// grown at `depth` has no leaf deeper than `max_depth`, unless it is a leaf
/// itself.
pub proof fn lemma_height_bounded<T: ForestFloat, const N: usize>(
    node: Node<T, N>,
    samples: Seq<&[T; N]>,
    depth: nat,
    max_depth: nat,
    extension_level: usize,
)
    where
        T::Wide: ForestFloat,
    requires
        isolates(node, samples, depth, max_depth, extension_level),
    ensures
        height(node) == 0 || depth + height(node) <= max_depth,
    decreases node,
{
    match node {
        Node::Ex(_) => {},
        Node::In(split) => {
            lemma_height_bounded(
                *split.left,
                routed(samples, split.n, split.p, Direction::Left),
                depth + 1,
                max_depth,
                extension_level,
            );
            lemma_height_bounded(
                *split.right,
                routed(samples, split.n, split.p, Direction::Right),
                depth + 1,
                max_depth,
                extension_level,
            );
        },
    }
}

/// The number of splits that `values` passes on its way from `node` to a
/// leaf.
pub open spec fn splits_passed<T: ForestFloat, const N: usize>(node: Node<T, N>, values: [T; N]) -> nat
    decreases node,
{
    match node {
        Node::Ex(_) => 0,
        Node::In(split) => 1 + splits_passed(
            match direction_spec(values, split.n, split.p) {
                Direction::Left => *split.left,
                Direction::Right => *split.right,
            },
            values,
        ),
    }
}

/// The number of samples in the leaf that `values` reaches from `node`.
pub open spec fn leaf_reached<T: ForestFloat, const N: usize>(node: Node<T, N>, values: [T; N]) -> usize
    decreases node,
{
    match node {
        Node::Ex(leaf) => leaf.num_samples,
        Node::In(split) => leaf_reached(
            match direction_spec(values, split.n, split.p) {
                Direction::Left => *split.left,
                Direction::Right => *split.right,
            },
            values,
        ),
    }
}

/// `x` with one added to it `k` times: `1 + (1 + (.. + x))`.
pub open spec fn plus_ones<W: ForestFloat>(x: W, k: nat) -> W
    decreases k,
{
    if k == 0 {
        x
    } else {
        one_spec::<W>().add_spec(plus_ones(x, (k - 1) as nat))
    }
}

/// A path length is what the leaf reached adds, with one added for each
/// split passed; and no path passes more splits than the tree is high.
pub proof fn lemma_path_counts_splits<T: ForestFloat, const N: usize>(node: Node<T, N>, values: [T; N])
    where
        T::Wide: ForestFloat,
    ensures
        path_length_spec(node, values) == plus_ones(
            leaf_correction_spec::<T::Wide>(leaf_reached(node, values)),
            splits_passed(node, values),
        ),
        splits_passed(node, values) <= height(node),
    decreases node,
{
    match node {
        Node::Ex(_) => {},
        Node::In(split) => {
            match direction_spec(values, split.n, split.p) {
                Direction::Left => lemma_path_counts_splits(*split.left, values),
                Direction::Right => lemma_path_counts_splits(*split.right, values),
            }
        },
    }
}

impl<T: ForestFloat, const N: usize> Tree<T, N> where T::Wide: ForestFloat {
    /// Whether this is an isolation tree of `samples`, with splitting
    /// stopped at `max_depth`.
    pub open spec fn isolates(self, samples: Seq<&[T; N]>, max_depth: nat, extension_level: usize) -> bool {
        isolates(self.root, samples, 0, max_depth, extension_level)
    }

    /// The length of the path on which `values` travels through the tree.
    pub open spec fn path_length_spec(self, values: [T; N]) -> T::Wide {
        path_length_spec(self.root, values)
    }

    /// Grows an isolation tree of the samples. The extension level is below
    /// the dimension of the points.
    pub fn new(
        samples: &[&[T; N]],
        rng: &mut rand::rngs::ThreadRng,
        max_tree_depth: usize,
        extension_level: usize,
    ) -> (tree: Self)
        requires
            extension_level < N,
        ensures
            tree.isolates(samples@, max_tree_depth as nat, extension_level),
    {
        Tree { root: make_node(samples, rng, 0, max_tree_depth, extension_level) }
    }

    /// The length of the path on which `values` travels through the tree
    /// until it reaches a leaf.
    pub fn path_length(&self, values: &[T; N]) -> (len: T::Wide)
        ensures
            len == self.path_length_spec(*values),
    {
        path_length_recurse(&self.root, values)
    }
}

} // verus!
