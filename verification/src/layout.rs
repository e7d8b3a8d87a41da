//! The weighted subdivision of a region.
//!
//! A region is divided among children in proportion to their integer weights,
//! in a single pass. Boundaries between children are the exact fractions of
//! the region's length, rounded down to the grid; since neighbours share each
//! boundary, the parts tile the region without gap or overlap.

use vstd::prelude::*;
use vstd::arithmetic::div_mod::lemma_fundamental_div_mod;
use vstd::arithmetic::div_mod::lemma_mod_bound;
use crate::elements::split::SplitType;
use crate::location::Axis;
use crate::location::Extent;
use crate::location::Location;
use crate::location::cut;
use crate::location::cut_max;
use crate::location::lemma_cut_bounds;

verus! {

/// The sum of all weights.
pub open spec fn weight_sum(weights: Seq<u32>) -> int
    decreases weights.len(),
{
    if weights.len() == 0 {
        0
    } else {
        weight_sum(weights.drop_last()) + weights.last()
    }
}

/// The sum of the weights of the children before child `index`.
pub open spec fn weight_before(weights: Seq<u32>, index: int) -> int {
    weight_sum(weights.take(index))
}

/// The axis along which a split of the given kind cuts a region.
pub open spec fn axis_of(kind: SplitType, within: Extent) -> Axis {
    match kind {
        SplitType::Horizontal => Axis::Horizontal,
        SplitType::Vertical => Axis::Vertical,
        SplitType::Adaptive => if within.width >= within.height {
            Axis::Horizontal
        } else {
            Axis::Vertical
        },
    }
}

/// The region of child `index`: the span of `within` between the fractions
/// that the weights before the child, and those up to and including it, are
/// of the total weight.
pub open spec fn part(kind: SplitType, weights: Seq<u32>, within: Extent, index: int) -> Extent {
    within.span(
        axis_of(kind, within),
        weight_before(weights, index),
        weight_before(weights, index + 1),
        weight_sum(weights),
    )
}

/// The lengths, along the split axis, of the first `count` parts, added up.
pub open spec fn length_sum(kind: SplitType, weights: Seq<u32>, within: Extent, count: int) -> int
    decreases count,
{
    if count <= 0 {
        0
    } else {
        length_sum(kind, weights, within, count - 1) + part(
            kind,
            weights,
            within,
            count - 1,
        ).length(axis_of(kind, within))
    }
}

/// Taking one more child adds its weight.
pub proof fn lemma_weight_before_step(weights: Seq<u32>, index: int)
    requires
        0 <= index < weights.len(),
    ensures
        weight_before(weights, index + 1) == weight_before(weights, index) + weights[index],
        weight_before(weights, 0) == 0,
{
    assert(weights.take(index + 1).drop_last() =~= weights.take(index));
    assert(weights.take(0) =~= Seq::<u32>::empty());
}

/// The weights before a child never exceed the total, and grow with the index.
pub proof fn lemma_weight_before_bounds(weights: Seq<u32>, index: int)
    requires
        0 <= index <= weights.len(),
    ensures
        0 <= weight_before(weights, index) <= weight_sum(weights),
        weight_before(weights, index) <= index * u32::MAX,
        weight_before(weights, weights.len() as int) == weight_sum(weights),
        index < weights.len() ==> weight_before(weights, index) <= weight_before(
            weights,
            index + 1,
        ),
    decreases weights.len() - index,
{
    assert(weights.take(weights.len() as int) =~= weights);
    lemma_weight_sum_bounds(weights.take(index));
    if index < weights.len() {
        lemma_weight_before_step(weights, index);
        lemma_weight_before_bounds(weights, index + 1);
    }
}

proof fn lemma_weight_sum_bounds(weights: Seq<u32>)
    ensures
        0 <= weight_sum(weights) <= weights.len() * u32::MAX,
    decreases weights.len(),
{
    if weights.len() > 0 {
        lemma_weight_sum_bounds(weights.drop_last());
        assert(weight_sum(weights) <= (weights.len() - 1) * u32::MAX + u32::MAX);
        assert((weights.len() - 1) * u32::MAX + u32::MAX == weights.len() * u32::MAX)
            by (nonlinear_arith);
    }
}

/// Each part lies inside the region, spans it fully across the split axis,
/// and begins exactly where the part before it ends; the first begins at the
/// region's start.
pub proof fn lemma_parts_tile(kind: SplitType, weights: Seq<u32>, within: Extent, index: int)
    requires
        within.on_grid(),
        0 <= index < weights.len(),
    ensures
        ({
            let axis = axis_of(kind, within);
            let here = part(kind, weights, within, index);
            &&& here.on_grid()
            &&& here.within(within)
            &&& axis == Axis::Horizontal ==> here.y == within.y && here.height == within.height
            &&& axis == Axis::Vertical ==> here.x == within.x && here.width == within.width
            &&& index == 0 ==> here.start(axis) == within.start(axis)
            &&& index > 0 ==> here.start(axis) == part(kind, weights, within, index - 1).end(axis)
            &&& index + 1 == weights.len() && weight_sum(weights) > 0 ==> here.end(axis)
                == within.end(axis)
        }),
{
    let axis = axis_of(kind, within);
    let total = weight_sum(weights);
    lemma_weight_before_bounds(weights, index);
    lemma_weight_before_bounds(weights, index + 1);
    lemma_weight_before_step(weights, index);
    lemma_cut_bounds(
        within.length(axis),
        weight_before(weights, index),
        weight_before(weights, index + 1),
        total,
    );
    if index > 0 {
        lemma_weight_before_bounds(weights, index - 1);
        lemma_cut_bounds(
            within.length(axis),
            weight_before(weights, index - 1),
            weight_before(weights, index),
            total,
        );
    }
}

/// The lengths of the first `count` parts add up to the cut that ends them.
pub proof fn lemma_length_sum_telescopes(
    kind: SplitType,
    weights: Seq<u32>,
    within: Extent,
    count: int,
)
    requires
        within.on_grid(),
        0 <= count <= weights.len(),
    ensures
        length_sum(kind, weights, within, count) == cut(
            within.length(axis_of(kind, within)),
            weight_before(weights, count),
            weight_sum(weights),
        ),
    decreases count,
{
    let axis = axis_of(kind, within);
    lemma_weight_before_bounds(weights, count);
    lemma_cut_bounds(within.length(axis), 0, weight_before(weights, count), weight_sum(weights));
    if count > 0 {
        lemma_length_sum_telescopes(kind, weights, within, count - 1);
    } else {
        assert(weights.take(0) =~= Seq::<u32>::empty());
    }
}

/// Conservation along the split axis: whenever there is weight to divide by,
/// the lengths of all parts add up to the length of the region.
pub proof fn lemma_split_conserves_length(kind: SplitType, weights: Seq<u32>, within: Extent)
    requires
        within.on_grid(),
        weight_sum(weights) > 0,
    ensures
        length_sum(kind, weights, within, weights.len() as int) == within.length(
            axis_of(kind, within),
        ),
{
    let axis = axis_of(kind, within);
    lemma_length_sum_telescopes(kind, weights, within, weights.len() as int);
    lemma_weight_before_bounds(weights, weights.len() as int);
    lemma_cut_bounds(within.length(axis), 0, weight_sum(weights), weight_sum(weights));
}

/// A part's length differs from its exact share of the region, the length
/// times the child's weight over the total weight, by less than one grid unit.
pub proof fn lemma_part_near_share(kind: SplitType, weights: Seq<u32>, within: Extent, index: int)
    requires
        within.on_grid(),
        0 <= index < weights.len(),
        weight_sum(weights) > 0,
    ensures
        ({
            let axis = axis_of(kind, within);
            let total = weight_sum(weights);
            let share = within.length(axis) * weights[index];
            let got = part(kind, weights, within, index).length(axis) * total;
            share - total < got < share + total
        }),
{
    let axis = axis_of(kind, within);
    let total = weight_sum(weights);
    let length = within.length(axis);
    let before = weight_before(weights, index);
    let after = weight_before(weights, index + 1);
    lemma_weight_before_step(weights, index);
    lemma_fundamental_div_mod(length * before, total);
    lemma_fundamental_div_mod(length * after, total);
    lemma_mod_bound(length * before, total);
    lemma_mod_bound(length * after, total);
    let low = (length * before) / total;
    let high = (length * after) / total;
    assert(length * after == length * before + length * weights[index]) by (nonlinear_arith)
        requires
            after == before + weights[index],
    ;
    assert((high - low) * total == total * high - total * low) by (nonlinear_arith);
}

/// Divides `within` among children with the given weights.
///
/// Child `i` of the result is the `i`-th part of the region in the order of
/// the weights. With no weight at all there is nothing to divide by, and
/// every child gets an empty part at the region's origin.
pub fn split_locations(kind: SplitType, weights: &Vec<u32>, within: Location) -> (parts: Vec<
    Location,
>)
    ensures
        parts@.len() == weights@.len(),
        forall|i: int|
            0 <= i < parts@.len() ==> (#[trigger] parts@[i])@ == part(kind, weights@, within@, i),
{
    let axis = split_axis(kind, within);
    let total = total_weight(weights);
    let mut parts: Vec<Location> = Vec::new();
    let mut before: u128 = 0;
    let mut index: usize = 0;
    proof {
        assert(weights@.take(0) =~= Seq::<u32>::empty());
    }
    while index < weights.len()
        invariant
            index <= weights@.len(),
            axis == axis_of(kind, within@),
            total == weight_sum(weights@),
            total < cut_max(),
            before == weight_before(weights@, index as int),
            parts@.len() == index,
            forall|i: int|
                0 <= i < index ==> (#[trigger] parts@[i])@ == part(kind, weights@, within@, i),
        decreases weights@.len() - index,
    {
        proof {
            lemma_weight_before_step(weights@, index as int);
            lemma_weight_before_bounds(weights@, index as int + 1);
        }
        let after: u128 = before + (weights[index] as u128);
        let here = within.span(axis, before, after, total);
        parts.push(here);
        before = after;
        index += 1;
    }
    parts
}

/// Computes [`axis_of`].
pub fn split_axis(kind: SplitType, within: Location) -> (axis: Axis)
    ensures
        axis == axis_of(kind, within@),
{
    match kind {
        SplitType::Horizontal => Axis::Horizontal,
        SplitType::Vertical => Axis::Vertical,
        SplitType::Adaptive => if within.width() >= within.height() {
            Axis::Horizontal
        } else {
            Axis::Vertical
        },
    }
}

/// Computes [`weight_sum`].
pub fn total_weight(weights: &Vec<u32>) -> (total: u128)
    ensures
        total == weight_sum(weights@),
        total < cut_max(),
{
    let mut total: u128 = 0;
    let mut index: usize = 0;
    proof {
        assert(weights@.take(0) =~= Seq::<u32>::empty());
    }
    while index < weights.len()
        invariant
            index <= weights@.len(),
            total == weight_before(weights@, index as int),
        decreases weights@.len() - index,
    {
        proof {
            lemma_weight_before_step(weights@, index as int);
            lemma_weight_before_bounds(weights@, index as int + 1);
            assert((index + 1) * u32::MAX < cut_max()) by (nonlinear_arith)
                requires
                    index + 1 <= usize::MAX,
                    usize::MAX <= 0xffff_ffff_ffff_ffff,
            ;
        }
        total = total + (weights[index] as u128);
        index += 1;
    }
    proof {
        lemma_weight_before_bounds(weights@, weights@.len() as int);
        assert(weights@.len() * u32::MAX < cut_max()) by (nonlinear_arith)
            requires
                weights@.len() <= usize::MAX,
                usize::MAX <= 0xffff_ffff_ffff_ffff,
        ;
    }
    total
}

} // verus!
