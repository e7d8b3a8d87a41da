//! Side-by-side and stacked arrangements.

use vstd::prelude::*;
use crate::anchors::lemma_any_waiting_concat;
use crate::anchors::lemma_bind_concat;
use crate::anchors::lemma_first_bound_concat;
use crate::anchors::AnchorKey;
use crate::anchors::ResolveAnchors;
use crate::build_pass::lemma_disjoint_parts;
use crate::build_pass::resolved_all;
use crate::build_pass::BuildNode;
use crate::drawer::gained;
use crate::drawer::lemma_gained_twice;
use crate::drawer::DrawOp;
use crate::drawer::DrawPass;
use crate::element::DrawResult;
use crate::element::Element;
use crate::event::Event;
use crate::event::EventResult;
use crate::event::HandleEvent;
use crate::event::InvalidateCache;
use crate::layout::axis_of;
use crate::layout::lemma_parts_tile;
use crate::layout::part;
use crate::layout::weight_sum;
use crate::layout::split_locations;
use crate::location::Extent;
use crate::location::Location;
use crate::shared::Addr;
use crate::shared::Shared;
use crate::values::ValueSource;
use vstd::seq_lib::lemma_seq_concat_contains_all_elements;

verus! {

/// How a split divides its region among its children.
#[derive(Clone, Copy, Debug, PartialEq, Eq, Structural)]
pub enum SplitType {
    /// Children are stacked from top to bottom, each as wide as the region.
    Vertical,
    /// Children sit side by side from left to right, each as tall as the region.
    Horizontal,
    /// The region is cut along its longer side: side by side when it is at
    /// least as wide as it is tall, stacked otherwise.
    Adaptive,
}

/// A group that divides its region among its children.
///
/// `type_` says along which axis; it is a value source, so the direction
/// may be a constant or live in a shared cell. `weights` holds the
/// children's weights in declaration order: a child's share of the region is
/// its weight over the sum of all weights. A child that `weights` does not
/// reach has weight 1, so a split without weights divides evenly.
pub struct Split<Ty, Es> {
    pub type_: Ty,
    pub elements: Es,
    pub weights: Vec<u32>,
}

/// A split that cuts its region along the longer side, into even parts.
pub fn split<Es: BuildNode>(elements: Es) -> (group: Split<SplitType, Es>)
    ensures
        group.type_ == SplitType::Adaptive,
        group.elements == elements,
        group.weights@ == Seq::<u32>::empty(),
{
    Split { type_: SplitType::Adaptive, elements, weights: Vec::new() }
}

/// A split whose children sit side by side, from left to right, in even parts.
pub fn line<Es: BuildNode>(elements: Es) -> (group: Split<SplitType, Es>)
    ensures
        group.type_ == SplitType::Horizontal,
        group.elements == elements,
        group.weights@ == Seq::<u32>::empty(),
{
    Split { type_: SplitType::Horizontal, elements, weights: Vec::new() }
}

/// A split whose children are stacked, from top to bottom, in even parts.
pub fn column<Es: BuildNode>(elements: Es) -> (group: Split<SplitType, Es>)
    ensures
        group.type_ == SplitType::Vertical,
        group.elements == elements,
        group.weights@ == Seq::<u32>::empty(),
{
    Split { type_: SplitType::Vertical, elements, weights: Vec::new() }
}

impl<Ty, Es> Split<Ty, Es> {
    /// The same split with the given weights for its children, in
    /// declaration order.
    pub fn weighted(self, weights: Vec<u32>) -> (group: Split<Ty, Es>)
        ensures
            group.type_ == self.type_,
            group.elements == self.elements,
            group.weights@ == weights@,
    {
        Split { type_: self.type_, elements: self.elements, weights }
    }
}

/// The weights of `count` children of a split that holds `weights`: those
/// it holds, in order, and 1 for every child after them.
pub open spec fn child_weights(weights: Seq<u32>, count: nat) -> Seq<u32> {
    Seq::new(
        count,
        |i: int|
            if i < weights.len() {
                weights[i]
            } else {
                1u32
            },
    )
}

/// Computes [`child_weights`].
pub fn weights_for(weights: &Vec<u32>, count: usize) -> (all: Vec<u32>)
    ensures
        all@ == child_weights(weights@, count as nat),
{
    let mut all: Vec<u32> = Vec::new();
    let mut index: usize = 0;
    while index < count
        invariant
            index <= count,
            all@ == child_weights(weights@, index as nat),
        decreases count - index,
    {
        let weight: u32 = if index < weights.len() {
            weights[index]
        } else {
            1
        };
        all.push(weight);
        index += 1;
        assert(all@ =~= child_weights(weights@, index as nat));
    }
    all
}

/// What a split of two children may draw when its direction reads as
/// `kind`: what the first child draws into the first part of the region,
/// followed by what the second child draws into the second part. The parts
/// are those that the weighted subdivision gives the two children's weights.
pub open spec fn pair_draws<R, A: Element<R>, B: Element<R>>(
    elements: (A, B),
    kind: SplitType,
    weights: Seq<u32>,
    resources: &R,
    location: Extent,
    ops: Seq<DrawOp>,
) -> bool {
    exists|cut: int|
        {
            &&& 0 <= cut <= ops.len()
            &&& #[trigger] elements.0.draws(
                resources,
                part(kind, child_weights(weights, 2), location, 0),
                ops.take(cut),
            )
            &&& elements.1.draws(
                resources,
                part(kind, child_weights(weights, 2), location, 1),
                ops.skip(cut),
            )
        }
}

/// The two parts that a split hands to its children fill the region along
/// the split axis, whatever the weights, as long as there is weight to
/// divide by: the first part begins where the region begins, the second
/// begins where the first ends and ends where the region ends, and their
/// lengths add up to the region's.
pub proof fn lemma_pair_parts_fill(kind: SplitType, weights: Seq<u32>, within: Extent)
    requires
        within.on_grid(),
        weight_sum(child_weights(weights, 2)) > 0,
    ensures
        ({
            let axis = axis_of(kind, within);
            let first = part(kind, child_weights(weights, 2), within, 0);
            let second = part(kind, child_weights(weights, 2), within, 1);
            &&& first.start(axis) == within.start(axis)
            &&& second.start(axis) == first.end(axis)
            &&& second.end(axis) == within.end(axis)
            &&& first.length(axis) + second.length(axis) == within.length(axis)
            &&& first.within(within)
            &&& second.within(within)
        }),
{
    let pair = child_weights(weights, 2);
    lemma_parts_tile(kind, pair, within, 0);
    lemma_parts_tile(kind, pair, within, 1);
}

/// Draws two children into the two parts of `location` that a split of the
/// given kind makes for the given weights.
pub fn draw_pair<R, A: Element<R>, B: Element<R>>(
    elements: &(A, B),
    kind: SplitType,
    weights: &Vec<u32>,
    pass: &mut DrawPass,
    resources: &R,
    location: Location,
) -> (outcome: DrawResult)
    ensures
        outcome is Ok ==> crate::drawer::extends(old(pass)@, final(pass)@),
        outcome is Ok ==> pair_draws(
            *elements,
            kind,
            weights@,
            resources,
            location@,
            gained(old(pass)@, final(pass)@),
        ),
        outcome is Err ==> final(pass)@ == old(pass)@,
        elements.0.steady() && elements.1.steady() ==> outcome is Ok,
{
    let pair = weights_for(weights, 2);
    let parts = split_locations(kind, &pair, location);
    let ghost before = pass@;
    let mark = pass.len();
    match elements.0.draw(pass, resources, parts[0]) {
        Ok(()) => {},
        Err(error) => {
            return Err(error);
        },
    }
    let ghost middle = pass@;
    match elements.1.draw(pass, resources, parts[1]) {
        Ok(()) => {},
        Err(error) => {
            pass.rewind(mark);
            return Err(error);
        },
    }
    proof {
        lemma_gained_twice(before, middle, pass@);
        let cut = middle.len() - before.len();
        assert(elements.0.draws(
            resources,
            part(kind, child_weights(weights@, 2), location@, 0),
            gained(before, pass@).take(cut),
        ));
    }
    Ok(())
}

impl<R, Ty: ValueSource<Value = SplitType>, A: Element<R>, B: Element<R>> Element<R> for Split<
    Ty,
    (A, B),
> {
    /// A split draws what [`pair_draws`] says for its weights and for some
    /// direction that its source may give.
    open spec fn draws(&self, resources: &R, location: Extent, ops: Seq<DrawOp>) -> bool {
        exists|kind: SplitType| #[trigger]
            self.type_.yields(kind) && pair_draws(
                self.elements,
                kind,
                self.weights@,
                resources,
                location,
                ops,
            )
    }

    /// A split can be drawn whenever its direction can be read and both
    /// children can be drawn.
    open spec fn steady(&self) -> bool {
        self.type_.steady() && self.elements.0.steady() && self.elements.1.steady()
    }

    fn draw(&self, pass: &mut DrawPass, resources: &R, location: Location) -> (outcome:
        DrawResult) {
        match self.type_.value() {
            Ok(kind) => {
                let outcome = draw_pair(
                    &self.elements,
                    kind,
                    &self.weights,
                    pass,
                    resources,
                    location,
                );
                assert(self.type_.yields(kind));
                outcome
            },
            Err(error) => Err(error),
        }
    }
}

/// What a split of three children may draw when its direction reads as
/// `kind`: what each child draws into its part of the region, in
/// declaration order.
pub open spec fn triple_draws<R, A: Element<R>, B: Element<R>, C: Element<R>>(
    elements: (A, B, C),
    kind: SplitType,
    weights: Seq<u32>,
    resources: &R,
    location: Extent,
    ops: Seq<DrawOp>,
) -> bool {
    exists|cut: int, then: int|
        {
            &&& 0 <= cut <= then <= ops.len()
            &&& #[trigger] elements.0.draws(
                resources,
                part(kind, child_weights(weights, 3), location, 0),
                ops.take(cut),
            )
            &&& #[trigger] elements.1.draws(
                resources,
                part(kind, child_weights(weights, 3), location, 1),
                ops.subrange(cut, then),
            )
            &&& elements.2.draws(
                resources,
                part(kind, child_weights(weights, 3), location, 2),
                ops.skip(then),
            )
        }
}

/// The three parts that a split hands to its children fill the region
/// along the split axis, whatever the weights, as long as there is weight
/// to divide by.
pub proof fn lemma_triple_parts_fill(kind: SplitType, weights: Seq<u32>, within: Extent)
    requires
        within.on_grid(),
        weight_sum(child_weights(weights, 3)) > 0,
    ensures
        ({
            let axis = axis_of(kind, within);
            let first = part(kind, child_weights(weights, 3), within, 0);
            let second = part(kind, child_weights(weights, 3), within, 1);
            let third = part(kind, child_weights(weights, 3), within, 2);
            &&& first.start(axis) == within.start(axis)
            &&& second.start(axis) == first.end(axis)
            &&& third.start(axis) == second.end(axis)
            &&& third.end(axis) == within.end(axis)
            &&& first.length(axis) + second.length(axis) + third.length(axis) == within.length(
                axis,
            )
            &&& first.within(within)
            &&& second.within(within)
            &&& third.within(within)
        }),
{
    let all = child_weights(weights, 3);
    lemma_parts_tile(kind, all, within, 0);
    lemma_parts_tile(kind, all, within, 1);
    lemma_parts_tile(kind, all, within, 2);
}

/// Draws three children into the three parts of `location` that a split of
/// the given kind makes for the given weights.
pub fn draw_triple<R, A: Element<R>, B: Element<R>, C: Element<R>>(
    elements: &(A, B, C),
    kind: SplitType,
    weights: &Vec<u32>,
    pass: &mut DrawPass,
    resources: &R,
    location: Location,
) -> (outcome: DrawResult)
    ensures
        outcome is Ok ==> crate::drawer::extends(old(pass)@, final(pass)@),
        outcome is Ok ==> triple_draws(
            *elements,
            kind,
            weights@,
            resources,
            location@,
            gained(old(pass)@, final(pass)@),
        ),
        outcome is Err ==> final(pass)@ == old(pass)@,
        elements.0.steady() && elements.1.steady() && elements.2.steady() ==> outcome is Ok,
{
    let all = weights_for(weights, 3);
    let parts = split_locations(kind, &all, location);
    let ghost before = pass@;
    let mark = pass.len();
    match elements.0.draw(pass, resources, parts[0]) {
        Ok(()) => {},
        Err(error) => {
            return Err(error);
        },
    }
    let ghost first = pass@;
    match elements.1.draw(pass, resources, parts[1]) {
        Ok(()) => {},
        Err(error) => {
            pass.rewind(mark);
            return Err(error);
        },
    }
    let ghost second = pass@;
    proof {
        lemma_gained_twice(before, first, second);
    }
    match elements.2.draw(pass, resources, parts[2]) {
        Ok(()) => {},
        Err(error) => {
            pass.rewind(mark);
            return Err(error);
        },
    }
    proof {
        lemma_gained_twice(before, second, pass@);
        let done = gained(before, pass@);
        let cut = first.len() - before.len();
        let then = second.len() - before.len();
        assert(done.take(then).take(cut) =~= done.take(cut));
        assert(done.take(then).skip(cut) =~= done.subrange(cut, then));
        assert(elements.0.draws(
            resources,
            part(kind, child_weights(weights@, 3), location@, 0),
            done.take(cut),
        ));
        assert(elements.1.draws(
            resources,
            part(kind, child_weights(weights@, 3), location@, 1),
            done.subrange(cut, then),
        ));
    }
    Ok(())
}

impl<
    R,
    Ty: ValueSource<Value = SplitType>,
    A: Element<R>,
    B: Element<R>,
    C: Element<R>,
> Element<R> for Split<Ty, (A, B, C)> {
    /// A split draws what [`triple_draws`] says for its weights and for
    /// some direction that its source may give.
    open spec fn draws(&self, resources: &R, location: Extent, ops: Seq<DrawOp>) -> bool {
        exists|kind: SplitType| #[trigger]
            self.type_.yields(kind) && triple_draws(
                self.elements,
                kind,
                self.weights@,
                resources,
                location,
                ops,
            )
    }

    /// A split can be drawn whenever its direction can be read and all
    /// children can be drawn.
    open spec fn steady(&self) -> bool {
        &&& self.type_.steady()
        &&& self.elements.0.steady()
        &&& self.elements.1.steady()
        &&& self.elements.2.steady()
    }

    fn draw(&self, pass: &mut DrawPass, resources: &R, location: Location) -> (outcome:
        DrawResult) {
        match self.type_.value() {
            Ok(kind) => {
                let outcome = draw_triple(
                    &self.elements,
                    kind,
                    &self.weights,
                    pass,
                    resources,
                    location,
                );
                assert(self.type_.yields(kind));
                outcome
            },
            Err(error) => Err(error),
        }
    }
}

impl<Ty, Es: HandleEvent> HandleEvent for Split<Ty, Es> {
    /// The children answer together; the direction is left as it is.
    open spec fn handles(self, event: Event, after: Self, result: EventResult) -> bool {
        &&& after.type_ == self.type_
        &&& after.weights == self.weights
        &&& self.elements.handles(event, after.elements, result)
    }

    fn handle_event(&mut self, event: &Event) -> (result: EventResult) {
        self.elements.handle_event(event)
    }
}

impl<Ty: InvalidateCache, Es: InvalidateCache> InvalidateCache for Split<Ty, Es> {
    /// A split depends on what its direction and its children depend on.
    open spec fn invalidates(&self, addr: Addr, dropped: bool) -> bool {
        exists|first: bool, second: bool|
            #![trigger self.type_.invalidates(addr, first), self.elements.invalidates(addr, second)]
            {
                &&& self.type_.invalidates(addr, first)
                &&& self.elements.invalidates(addr, second)
                &&& dropped == (first || second)
            }
    }

    fn invalidate_cache(&self, addr: Addr) -> (dropped: bool) {
        let first = self.type_.invalidate_cache(addr);
        let second = self.elements.invalidate_cache(addr);
        assert(self.type_.invalidates(addr, first));
        assert(self.elements.invalidates(addr, second));
        first || second
    }
}

impl<Ty: BuildNode, Es: BuildNode> BuildNode for Split<Ty, Es> {
    type Built = Split<Ty::Built, Es::Built>;

    open spec fn declared(&self) -> Set<AnchorKey> {
        self.type_.declared() + self.elements.declared()
    }

    open spec fn waiting(&self) -> Set<AnchorKey> {
        self.type_.waiting() + self.elements.waiting()
    }

    open spec fn builds(self, built: Split<Ty::Built, Es::Built>) -> bool {
        &&& self.type_.builds(built.type_)
        &&& self.elements.builds(built.elements)
        &&& built.weights == self.weights
    }

    fn build_node(self) -> (built: Split<Ty::Built, Es::Built>) {
        proof {
            lemma_disjoint_parts(
                self.type_.declared(),
                self.elements.declared(),
                self.type_.waiting(),
                self.elements.waiting(),
            );
        }
        Split {
            type_: self.type_.build_node(),
            elements: self.elements.build_node(),
            weights: self.weights,
        }
    }
}

impl<V, Ty: ResolveAnchors<V>, Es: ResolveAnchors<V>> ResolveAnchors<V> for Split<Ty, Es> {
    /// The direction's anchors come before the children's.
    open spec fn keys(&self) -> Seq<AnchorKey> {
        self.type_.keys() + self.elements.keys()
    }

    open spec fn slots(&self, key: AnchorKey) -> Seq<Option<Shared<V>>> {
        self.type_.slots(key) + self.elements.slots(key)
    }

    open spec fn resolved(self, key: AnchorKey, cell: Shared<V>) -> Self {
        Split {
            type_: self.type_.resolved(key, cell),
            elements: self.elements.resolved(key, cell),
            weights: self.weights,
        }
    }

    proof fn lemma_keys(&self, key: AnchorKey) {
        self.type_.lemma_keys(key);
        self.elements.lemma_keys(key);
        lemma_seq_concat_contains_all_elements(self.type_.keys(), self.elements.keys(), key);
    }

    proof fn lemma_slot_states(&self, key: AnchorKey) {
        self.type_.lemma_slot_states(key);
        self.elements.lemma_slot_states(key);
        lemma_first_bound_concat(self.type_.slots(key), self.elements.slots(key));
        lemma_any_waiting_concat(self.type_.slots(key), self.elements.slots(key));
    }

    proof fn lemma_resolved(self, key: AnchorKey, cell: Shared<V>, other: AnchorKey) {
        self.type_.lemma_resolved(key, cell, other);
        self.elements.lemma_resolved(key, cell, other);
        lemma_bind_concat(self.type_.slots(key), self.elements.slots(key), cell);
    }

    fn anchors(&self) -> (keys: Vec<AnchorKey>) {
        let mut keys = self.type_.anchors();
        let mut more = self.elements.anchors();
        keys.append(&mut more);
        keys
    }

    fn get_anchor(&self, key: AnchorKey) -> (found: Option<Shared<V>>) {
        proof {
            lemma_first_bound_concat(self.type_.slots(key), self.elements.slots(key));
        }
        match self.type_.get_anchor(key) {
            Some(cell) => Some(cell),
            None => self.elements.get_anchor(key),
        }
    }

    fn resolve_anchor(&mut self, key: AnchorKey, cell: &Shared<V>) {
        self.type_.resolve_anchor(key, cell);
        self.elements.resolve_anchor(key, cell);
    }
}

/// Resolution leaves the weights of a split as they are.
pub proof fn lemma_resolution_keeps_weights<V, Ty: ResolveAnchors<V>, Es: ResolveAnchors<V>>(
    tree: Split<Ty, Es>,
    keys: Seq<AnchorKey>,
)
    ensures
        resolved_all(tree, keys).weights == tree.weights,
    decreases keys.len(),
{
    if keys.len() > 0 {
        lemma_resolution_keeps_weights(tree, keys.drop_last());
    }
}

/// Resolution leaves a constant direction as it is.
pub proof fn lemma_resolution_keeps_direction<V, Es: ResolveAnchors<V>>(
    tree: Split<SplitType, Es>,
    keys: Seq<AnchorKey>,
)
    ensures
        resolved_all(tree, keys).type_ == tree.type_,
    decreases keys.len(),
{
    if keys.len() > 0 {
        lemma_resolution_keeps_direction(tree, keys.drop_last());
    }
}

/// With a constant direction, resolving a split is resolving its children.
pub proof fn lemma_resolution_goes_to_children<V, Es: ResolveAnchors<V>>(
    tree: Split<SplitType, Es>,
    keys: Seq<AnchorKey>,
)
    ensures
        resolved_all(tree, keys).elements == resolved_all(tree.elements, keys),
        tree.keys() == tree.elements.keys(),
    decreases keys.len(),
{
    assert(tree.keys() =~= tree.elements.keys());
    if keys.len() > 0 {
        lemma_resolution_goes_to_children(tree, keys.drop_last());
        let before = resolved_all(tree, keys.drop_last());
        assert(before.slots(keys.last()) =~= before.elements.slots(keys.last()));
    }
}

/// What a build keeps of a split: a constant direction and the weights
/// are those of the description, and the children are built as they would
/// be on their own, in the same order: their anchors resolved among
/// themselves, and each child turned into its built form.
pub proof fn lemma_build_keeps_split<V, Es: ResolveAnchors<V>>(
    tree: Split<SplitType, Es>,
    built: Split<SplitType, Es::Built>,
)
    requires
        resolved_all(tree, tree.keys()).builds(built),
    ensures
        built.type_ == tree.type_,
        built.weights == tree.weights,
        resolved_all(tree.elements, tree.elements.keys()).builds(built.elements),
        tree.elements.keys().len() == 0 ==> tree.elements.builds(built.elements),
{
    lemma_resolution_keeps_direction(tree, tree.keys());
    lemma_resolution_keeps_weights(tree, tree.keys());
    lemma_resolution_goes_to_children(tree, tree.keys());
}

} // verus!
