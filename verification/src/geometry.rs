//! Split geometry: the side of a hyperplane on which a point lies, and the
//! choice of a random hyperplane through a set of samples.
use crate::random::choose_indices;
use crate::scalar::{one_spec, zero_spec, ForestFloat};
use vstd::prelude::*;

verus! {

/// The side of a hyperplane on which a point lies.
#[derive(Clone, Copy, Debug, PartialEq, Eq)]
pub enum Direction {
    Left,
    Right,
}

/// The sum over the first `k` coordinates of `(x_i - p_i) * n_i`, added up
/// from zero in the order of the coordinates.
pub open spec fn offset_dot<T: ForestFloat>(x: Seq<T>, n: Seq<T>, p: Seq<T>, k: int) -> T
    decreases k,
{
    if k <= 0 {
        zero_spec::<T>()
    } else {
        offset_dot(x, n, p, k - 1).add_spec(x[k - 1].sub_spec(p[k - 1]).mul_spec(n[k - 1]))
    }
}

/// The side of the hyperplane through `p` with normal `n` on which `sample`
/// lies: left where `(sample - p) . n <= 0`, right otherwise. A point on the
/// hyperplane is on the left.
pub open spec fn direction_spec<T: ForestFloat, const N: usize>(
    sample: [T; N],
    n: [T; N],
    p: [T; N],
) -> Direction {
    if offset_dot(sample@, n@, p@, N as int).le_spec(zero_spec::<T>()) {
        Direction::Left
    } else {
        Direction::Right
    }
}

/// On which side of the hyperplane through `p` with normal `n` the sample
/// lies.
pub fn determinate_direction<T: ForestFloat, const N: usize>(
    sample: &[T; N],
    n: &[T; N],
    p: &[T; N],
) -> (d: Direction)
    ensures
        d == direction_spec(*sample, *n, *p),
{
    let zero = T::from_u64(0);
    let mut direction_value = zero;
    let mut i: usize = 0;
    while i < N
        invariant
            i <= N,
            zero == zero_spec::<T>(),
            direction_value == offset_dot(sample@, n@, p@, i as int),
        decreases N - i,
    {
        direction_value = direction_value.add(sample[i].sub(p[i]).mul(n[i]));
        i += 1;
    }
    if direction_value.le(zero) {
        Direction::Left
    } else {
        Direction::Right
    }
}

/// The relative difference below which two bounds count as equal: 1/10000.
pub open spec fn tolerance_spec<W: ForestFloat>() -> W {
    one_spec::<W>().div_spec(W::from_u64_spec(10000))
}

/// The distance between `a` and `b`, in the wide scalar: `|a - b|`.
pub open spec fn gap_spec<T: ForestFloat>(a: T, b: T) -> T::Wide
    where
        T::Wide: ForestFloat,
{
    a.widen_spec().sub_spec(b.widen_spec()).abs_spec()
}

/// Whether `a` and `b` are equal up to the tolerance: they do not differ,
/// or `|a - b| / |a|` is below it. Both are compared in the wide scalar.
pub open spec fn are_equal_spec<T: ForestFloat>(a: T, b: T) -> bool
    where
        T::Wide: ForestFloat,
{
    ||| gap_spec(a, b).le_spec(zero_spec::<T::Wide>())
    ||| gap_spec(a, b).div_spec(a.widen_spec().abs_spec()).lt_spec(tolerance_spec::<T::Wide>())
}

/// Whether `a` and `b` are equal up to a relative difference of 1/10000.
pub fn are_equal<T: ForestFloat>(a: &T, b: &T) -> (r: bool)
    where
        T::Wide: ForestFloat,
    ensures
        r == are_equal_spec(*a, *b),
{
    let wide = a.widen();
    let gap = wide.sub(b.widen()).abs();
    if gap.le(<T::Wide>::from_u64(0)) {
        true
    } else {
        let tolerance = <T::Wide>::from_u64(1).div(<T::Wide>::from_u64(10000));
        gap.div(wide.abs()).lt(tolerance)
    }
}

/// Coordinate `i` of a sample.
pub open spec fn coord<T, const N: usize>(sample: &[T; N], i: int) -> T {
    sample@[i]
}

/// The least of coordinate `i` over the first `k` samples, found by going
/// through them in order and keeping a value until a smaller one comes.
pub open spec fn coord_min<T: ForestFloat, const N: usize>(samples: Seq<&[T; N]>, i: int, k: int) -> T
    decreases k,
{
    if k <= 1 {
        coord(samples[0], i)
    } else {
        let kept = coord_min(samples, i, k - 1);
        let v = coord(samples[k - 1], i);
        if v.lt_spec(kept) {
            v
        } else {
            kept
        }
    }
}

/// The greatest of coordinate `i` over the first `k` samples, found by going
/// through them in order and keeping a value until a greater one comes.
pub open spec fn coord_max<T: ForestFloat, const N: usize>(samples: Seq<&[T; N]>, i: int, k: int) -> T
    decreases k,
{
    if k <= 1 {
        coord(samples[0], i)
    } else {
        let kept = coord_max(samples, i, k - 1);
        let v = coord(samples[k - 1], i);
        if kept.lt_spec(v) {
            v
        } else {
            kept
        }
    }
}

/// The bounding box of the samples: the least and the greatest value of
/// each coordinate.
pub fn bounds<T: ForestFloat, const N: usize>(samples: &[&[T; N]]) -> (r: ([T; N], [T; N]))
    requires
        samples@.len() >= 1,
    ensures
        forall|i: int|
            0 <= i < N ==> r.0@[i] == coord_min(samples@, i, samples@.len() as int) && r.1@[i]
                == coord_max(samples@, i, samples@.len() as int),
{
    let mut mins: [T; N] = *samples[0];
    let mut maxs: [T; N] = *samples[0];
    let mut k: usize = 1;
    while k < samples.len()
        invariant
            1 <= k <= samples@.len(),
            forall|i: int|
                0 <= i < N ==> mins@[i] == coord_min(samples@, i, k as int) && maxs@[i]
                    == coord_max(samples@, i, k as int),
        decreases samples@.len() - k,
    {
        let s: &[T; N] = samples[k];
        let mut i: usize = 0;
        while i < N
            invariant
                i <= N,
                1 <= k < samples@.len(),
                s == samples@[k as int],
                forall|j: int|
                    0 <= j < i ==> mins@[j] == coord_min(samples@, j, k + 1) && maxs@[j]
                        == coord_max(samples@, j, k + 1),
                forall|j: int|
                    i <= j < N ==> mins@[j] == coord_min(samples@, j, k as int) && maxs@[j]
                        == coord_max(samples@, j, k as int),
            decreases N - i,
        {
            let v = s[i];
            if maxs[i].lt(v) {
                maxs[i] = v;
            }
            if v.lt(mins[i]) {
                mins[i] = v;
            }
            i += 1;
        }
        k += 1;
    }
    (mins, maxs)
}

/// Whether a value can be drawn between `lo` and `hi`: they differ by more
/// than the tolerance, `lo` is below `hi`, and the width of the range is
/// finite.
pub open spec fn can_draw<T: ForestFloat>(lo: T, hi: T) -> bool
    where
        T::Wide: ForestFloat,
{
    &&& !are_equal_spec(lo, hi)
    &&& lo.lt_spec(hi)
    &&& hi.sub_spec(lo).is_finite_spec()
}

/// Whether `p` may be a coordinate of the intercept for a coordinate that
/// ranges from `lo` to `hi`: within `[lo, hi)` where a value can be drawn,
/// and `lo` itself where none can.
pub open spec fn intercept_fits<T: ForestFloat>(p: T, lo: T, hi: T) -> bool
    where
        T::Wide: ForestFloat,
{
    if can_draw(lo, hi) {
        lo.le_spec(p) && p.lt_spec(hi)
    } else {
        p == lo
    }
}

/// Between bounds that are equal up to the tolerance nothing is drawn: the
/// intercept is the lower bound.
pub proof fn lemma_narrow_range_is_not_drawn<T: ForestFloat>(p: T, lo: T, hi: T)
    where
        T::Wide: ForestFloat,
    requires
        are_equal_spec(lo, hi),
        intercept_fits(p, lo, hi),
    ensures
        p == lo,
{
}

/// Picks an intercept point in the box from `mins` to `maxs`: each
/// coordinate drawn uniformly from its range, or the lower bound where the
/// range is too narrow, empty or too wide to draw from.
pub fn choose_intercept<T: ForestFloat, const N: usize>(
    mins: &[T; N],
    maxs: &[T; N],
    rng: &mut rand::rngs::ThreadRng,
) -> (p: [T; N])
    where
        T::Wide: ForestFloat,
    ensures
        forall|i: int| 0 <= i < N ==> intercept_fits(#[trigger] p@[i], mins@[i], maxs@[i]),
{
    let mut p: [T; N] = *mins;
    let mut i: usize = 0;
    while i < N
        invariant
            i <= N,
            forall|j: int| 0 <= j < i ==> intercept_fits(#[trigger] p@[j], mins@[j], maxs@[j]),
            forall|j: int| i <= j < N ==> p@[j] == mins@[j],
        decreases N - i,
    {
        let lo = mins[i];
        let hi = maxs[i];
        if !are_equal(&lo, &hi) && lo.lt(hi) && hi.sub(lo).is_finite() {
            p[i] = T::sample_uniform(rng, lo, hi);
        }
        i += 1;
    }
    p
}

/// Draws a vector of independent standard normal coordinates: each one a
/// finite number.
fn draw_normal<T: ForestFloat, const N: usize>(rng: &mut rand::rngs::ThreadRng) -> (n: [T; N])
    ensures
        forall|i: int| 0 <= i < N ==> (#[trigger] n@[i]).is_finite_spec(),
{
    let mut n: [T; N] = [T::from_u64(0);N];
    let mut i: usize = 0;
    while i < N
        invariant
            i <= N,
            forall|j: int| 0 <= j < i ==> (#[trigger] n@[j]).is_finite_spec(),
        decreases N - i,
    {
        n[i] = T::sample_standard_normal(rng);
        i += 1;
    }
    n
}

/// Whether `n` is `raw` with the coordinates named in `at` set to zero.
pub open spec fn zeroed_at<T: ForestFloat>(n: Seq<T>, raw: Seq<T>, at: Seq<usize>) -> bool {
    &&& n.len() == raw.len()
    &&& forall|i: int|
        0 <= i < n.len() ==> #[trigger] n[i] == if at.contains(i as usize) {
            zero_spec::<T>()
        } else {
            raw[i]
        }
}

/// Sets the coordinates of `raw` named in `at` to zero.
pub fn sparsify<T: ForestFloat, const N: usize>(raw: [T; N], at: &Vec<usize>) -> (n: [T; N])
    requires
        forall|k: int| 0 <= k < at@.len() ==> #[trigger] at@[k] < N,
    ensures
        zeroed_at(n@, raw@, at@),
{
    let zero = T::from_u64(0);
    let mut n = raw;
    let mut k: usize = 0;
    while k < at.len()
        invariant
            k <= at@.len(),
            zero == zero_spec::<T>(),
            forall|k: int| 0 <= k < at@.len() ==> #[trigger] at@[k] < N,
            zeroed_at(n@, raw@, at@.take(k as int)),
        decreases at@.len() - k,
    {
        let ghost before = n@;
        n[at[k]] = zero;
        proof {
            let seen = at@.take(k as int);
            let next = at@.take(k + 1);
            assert(next.drop_last() =~= seen);
            assert(next.last() == at@[k as int]);
            assert forall|i: int| 0 <= i < n@.len() implies #[trigger] n@[i] == if next.contains(
                i as usize,
            ) {
                zero_spec::<T>()
            } else {
                raw@[i]
            } by {
                if i == at@[k as int] {
                    assert(next[k as int] == i as usize);
                } else {
                    assert(n@[i] == before[i]);
                    if seen.contains(i as usize) {
                        let w = choose|w: int| 0 <= w < seen.len() && seen[w] == i as usize;
                        assert(next[w] == i as usize);
                    }
                    if next.contains(i as usize) {
                        let w = choose|w: int| 0 <= w < next.len() && next[w] == i as usize;
                        assert(w != k);
                        assert(seen[w] == i as usize);
                    }
                }
            }
        }
        k += 1;
    }
    proof {
        assert(at@.take(at@.len() as int) =~= at@);
    }
    n
}

/// Whether at least `count` coordinates of `n` are zero: `count` distinct
/// positions can be named at which it is.
pub open spec fn has_zeros<T: ForestFloat>(n: Seq<T>, count: int) -> bool {
    exists|at: Seq<usize>| zeros_at(n, count, at)
}

/// Whether `at` names `count` distinct positions at which `n` is zero.
pub open spec fn zeros_at<T: ForestFloat>(n: Seq<T>, count: int, at: Seq<usize>) -> bool {
    &&& at.len() == count
    &&& at.no_duplicates()
    &&& forall|k: int|
        0 <= k < at.len() ==> (#[trigger] at[k]) < n.len() && n[at[k] as int] == zero_spec::<T>()
}

/// Whether `v` may be a coordinate of a normal vector: zero, where it was
/// set so, or a finite number, where it was drawn.
pub open spec fn is_normal_coordinate<T: ForestFloat>(v: T) -> bool {
    v == zero_spec::<T>() || v.is_finite_spec()
}

/// Whether the hyperplane through `p` with normal `n` may split `samples` at
/// the given extension level: `p` lies in the bounding box of the samples,
/// as far as a value can be drawn there, all but `extension_level + 1`
/// coordinates of `n` are zero, and the others are zero or finite numbers.
pub open spec fn is_split_plane<T: ForestFloat, const N: usize>(
    samples: Seq<&[T; N]>,
    extension_level: usize,
    p: [T; N],
    n: [T; N],
) -> bool
    where
        T::Wide: ForestFloat,
{
    &&& forall|i: int|
        0 <= i < N ==> intercept_fits(
            #[trigger] p@[i],
            coord_min(samples, i, samples.len() as int),
            coord_max(samples, i, samples.len() as int),
        )
    &&& has_zeros(n@, N - extension_level - 1)
    &&& forall|i: int| 0 <= i < N ==> is_normal_coordinate(#[trigger] n@[i])
}

/// Chooses a random hyperplane that splits the samples: an intercept point
/// `p` drawn from their bounding box, and a normal vector `n` of standard
/// normal coordinates of which `N - extension_level - 1`, picked at random,
/// are set to zero. Returns `(p, n)`.
pub fn choose_hyperplane<T: ForestFloat, const N: usize>(
    samples: &[&[T; N]],
    extension_level: usize,
    rng: &mut rand::rngs::ThreadRng,
) -> (plane: ([T; N], [T; N]))
    where
        T::Wide: ForestFloat,
    requires
        samples@.len() >= 1,
        extension_level < N,
    ensures
        is_split_plane(samples@, extension_level, plane.0, plane.1),
{
    let (mins, maxs) = bounds(samples);
    let p = choose_intercept(&mins, &maxs, rng);
    let raw: [T; N] = draw_normal(rng);
    let at = choose_indices(rng, N, N - extension_level - 1);
    let n = sparsify(raw, &at);
    proof {
        assert forall|k: int| 0 <= k < at@.len() implies (#[trigger] at@[k]) < n@.len() && n@[at@[k] as int]
            == zero_spec::<T>() by {
            assert(at@.contains(at@[k]));
        }
        assert(zeros_at(n@, N - extension_level - 1, at@));
    }
    (p, n)
}

/// The samples that lie on the given side of the hyperplane through `p`
/// with normal `n`, in their order.
pub open spec fn routed<T: ForestFloat, const N: usize>(
    samples: Seq<&[T; N]>,
    n: [T; N],
    p: [T; N],
    side: Direction,
) -> Seq<&[T; N]>
    decreases samples.len(),
{
    if samples.len() == 0 {
        Seq::empty()
    } else {
        let before = routed(samples.drop_last(), n, p, side);
        if direction_spec(*samples.last(), n, p) == side {
            before.push(samples.last())
        } else {
            before
        }
    }
}

/// Splits the samples by the hyperplane through `p` with normal `n`: those
/// on its left, then those on its right, each in their order.
pub fn split_samples<'a, T: ForestFloat, const N: usize>(
    samples: &[&'a [T; N]],
    n: &[T; N],
    p: &[T; N],
) -> (sides: (Vec<&'a [T; N]>, Vec<&'a [T; N]>))
    ensures
        sides.0@ == routed(samples@, *n, *p, Direction::Left),
        sides.1@ == routed(samples@, *n, *p, Direction::Right),
{
    let mut samples_left: Vec<&'a [T; N]> = Vec::new();
    let mut samples_right: Vec<&'a [T; N]> = Vec::new();
    let mut k: usize = 0;
    while k < samples.len()
        invariant
            k <= samples@.len(),
            samples_left@ == routed(samples@.take(k as int), *n, *p, Direction::Left),
            samples_right@ == routed(samples@.take(k as int), *n, *p, Direction::Right),
        decreases samples@.len() - k,
    {
        let sample: &'a [T; N] = samples[k];
        proof {
            assert(samples@.take(k + 1).drop_last() =~= samples@.take(k as int));
            assert(samples@.take(k + 1).last() == sample);
        }
        match determinate_direction(sample, n, p) {
            Direction::Left => samples_left.push(sample),
            Direction::Right => samples_right.push(sample),
        }
        k += 1;
    }
    proof {
        assert(samples@.take(samples@.len() as int) =~= samples@);
    }
    (samples_left, samples_right)
}

} // verus!
