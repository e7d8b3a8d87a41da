//! Elements painted on top of each other.

use vstd::prelude::*;
use crate::anchors::AnchorKey;
use crate::anchors::ResolveAnchors;
use crate::build_pass::BuildNode;
use crate::drawer::lemma_gained_twice;
use crate::drawer::DrawOp;
use crate::drawer::DrawPass;
use crate::element::DrawResult;
use crate::element::Element;
use crate::event::Event;
use crate::event::EventResult;
use crate::event::HandleEvent;
use crate::event::InvalidateCache;
use crate::location::Extent;
use crate::location::Location;
use crate::shared::Addr;
use crate::shared::Shared;

verus! {

/// A group whose children all occupy the group's whole region.
///
/// The children are painted in declaration order, so a later child paints
/// over an earlier one.
pub struct Layers<Es> {
    pub elements: Es,
}

/// The group of the given children.
pub fn layers<Es>(elements: Es) -> (group: Layers<Es>)
    ensures
        group.elements == elements,
{
    Layers { elements }
}

impl<R, A: Element<R>, B: Element<R>> Element<R> for Layers<(A, B)> {
    /// What the first child draws into the region, followed by what the
    /// second draws into the same region.
    open spec fn draws(&self, resources: &R, location: Extent, ops: Seq<DrawOp>) -> bool {
        exists|cut: int|
            {
                &&& 0 <= cut <= ops.len()
                &&& #[trigger] self.elements.0.draws(resources, location, ops.take(cut))
                &&& self.elements.1.draws(resources, location, ops.skip(cut))
            }
    }

    /// The group can be drawn whenever both children can.
    open spec fn steady(&self) -> bool {
        self.elements.0.steady() && self.elements.1.steady()
    }

    fn draw(&self, pass: &mut DrawPass, resources: &R, location: Location) -> (outcome:
        DrawResult) {
        let ghost before = pass@;
        let mark = pass.len();
        match self.elements.0.draw(pass, resources, location) {
            Ok(()) => {},
            Err(error) => {
                return Err(error);
            },
        }
        let ghost middle = pass@;
        match self.elements.1.draw(pass, resources, location) {
            Ok(()) => {},
            Err(error) => {
                pass.rewind(mark);
                return Err(error);
            },
        }
        proof {
            lemma_gained_twice(before, middle, pass@);
            let cut = middle.len() - before.len();
            assert(self.elements.0.draws(
                resources,
                location@,
                crate::drawer::gained(before, pass@).take(cut),
            ));
        }
        Ok(())
    }
}

impl<R, A: Element<R>, B: Element<R>, C: Element<R>> Element<R> for Layers<(A, B, C)> {
    /// What the three children draw into the region, one after the other in
    /// declaration order.
    open spec fn draws(&self, resources: &R, location: Extent, ops: Seq<DrawOp>) -> bool {
        exists|cut: int, then: int|
            {
                &&& 0 <= cut <= then <= ops.len()
                &&& #[trigger] self.elements.0.draws(resources, location, ops.take(cut))
                &&& #[trigger] self.elements.1.draws(resources, location, ops.subrange(cut, then))
                &&& self.elements.2.draws(resources, location, ops.skip(then))
            }
    }

    /// The group can be drawn whenever all three children can.
    open spec fn steady(&self) -> bool {
        self.elements.0.steady() && self.elements.1.steady() && self.elements.2.steady()
    }

    fn draw(&self, pass: &mut DrawPass, resources: &R, location: Location) -> (outcome:
        DrawResult) {
        let ghost before = pass@;
        let mark = pass.len();
        match self.elements.0.draw(pass, resources, location) {
            Ok(()) => {},
            Err(error) => {
                return Err(error);
            },
        }
        let ghost first = pass@;
        match self.elements.1.draw(pass, resources, location) {
            Ok(()) => {},
            Err(error) => {
                pass.rewind(mark);
                return Err(error);
            },
        }
        let ghost second = pass@;
        proof {
            lemma_gained_twice(before, first, second);
        }
        match self.elements.2.draw(pass, resources, location) {
            Ok(()) => {},
            Err(error) => {
                pass.rewind(mark);
                return Err(error);
            },
        }
        proof {
            lemma_gained_twice(before, second, pass@);
            let all = crate::drawer::gained(before, pass@);
            let cut = first.len() - before.len();
            let then = second.len() - before.len();
            assert(all.take(then).take(cut) =~= all.take(cut));
            assert(all.take(then).skip(cut) =~= all.subrange(cut, then));
            assert(self.elements.0.draws(resources, location@, all.take(cut)));
            assert(self.elements.1.draws(resources, location@, all.subrange(cut, then)));
        }
        Ok(())
    }
}

impl<Es: HandleEvent> HandleEvent for Layers<Es> {
    /// The group answers as its children together do.
    open spec fn handles(self, event: Event, after: Self, result: EventResult) -> bool {
        self.elements.handles(event, after.elements, result)
    }

    fn handle_event(&mut self, event: &Event) -> (result: EventResult) {
        self.elements.handle_event(event)
    }
}

impl<Es: InvalidateCache> InvalidateCache for Layers<Es> {
    /// The group answers as its children together do.
    open spec fn invalidates(&self, addr: Addr, dropped: bool) -> bool {
        self.elements.invalidates(addr, dropped)
    }

    fn invalidate_cache(&self, addr: Addr) -> (dropped: bool) {
        self.elements.invalidate_cache(addr)
    }
}

impl<Es: BuildNode> BuildNode for Layers<Es> {
    type Built = Layers<Es::Built>;

    open spec fn declared(&self) -> Set<AnchorKey> {
        self.elements.declared()
    }

    open spec fn waiting(&self) -> Set<AnchorKey> {
        self.elements.waiting()
    }

    open spec fn builds(self, built: Layers<Es::Built>) -> bool {
        self.elements.builds(built.elements)
    }

    fn build_node(self) -> (built: Layers<Es::Built>) {
        Layers { elements: self.elements.build_node() }
    }
}

impl<V, Es: ResolveAnchors<V>> ResolveAnchors<V> for Layers<Es> {
    open spec fn keys(&self) -> Seq<AnchorKey> {
        self.elements.keys()
    }

    open spec fn slots(&self, key: AnchorKey) -> Seq<Option<Shared<V>>> {
        self.elements.slots(key)
    }

    open spec fn resolved(self, key: AnchorKey, cell: Shared<V>) -> Self {
        Layers { elements: self.elements.resolved(key, cell) }
    }

    proof fn lemma_keys(&self, key: AnchorKey) {
        self.elements.lemma_keys(key);
    }

    proof fn lemma_slot_states(&self, key: AnchorKey) {
        self.elements.lemma_slot_states(key);
    }

    proof fn lemma_resolved(self, key: AnchorKey, cell: Shared<V>, other: AnchorKey) {
        self.elements.lemma_resolved(key, cell, other);
    }

    fn anchors(&self) -> (keys: Vec<AnchorKey>) {
        self.elements.anchors()
    }

    fn get_anchor(&self, key: AnchorKey) -> (found: Option<Shared<V>>) {
        self.elements.get_anchor(key)
    }

    fn resolve_anchor(&mut self, key: AnchorKey, cell: &Shared<V>) {
        self.elements.resolve_anchor(key, cell);
    }
}

/// Painting order of a pair of layers: if the first child may draw `below`
/// and the second may draw `above`, both into the group's region, then the
/// group may draw `below` followed by `above`; and whatever the group draws
/// is made up in this way.
pub proof fn lemma_layers_paint_in_order<R, A: Element<R>, B: Element<R>>(
    group: Layers<(A, B)>,
    resources: &R,
    location: Extent,
    ops: Seq<DrawOp>,
)
    ensures
        group.draws(resources, location, ops) <==> exists|below: Seq<DrawOp>, above: Seq<DrawOp>|
            {
                &&& #[trigger] group.elements.0.draws(resources, location, below)
                &&& #[trigger] group.elements.1.draws(resources, location, above)
                &&& ops == below + above
            },
{
    if group.draws(resources, location, ops) {
        let cut = choose|cut: int|
            {
                &&& 0 <= cut <= ops.len()
                &&& #[trigger] group.elements.0.draws(resources, location, ops.take(cut))
                &&& group.elements.1.draws(resources, location, ops.skip(cut))
            };
        assert(ops =~= ops.take(cut) + ops.skip(cut));
        assert(group.elements.0.draws(resources, location, ops.take(cut)));
        assert(group.elements.1.draws(resources, location, ops.skip(cut)));
    }
    if exists|below: Seq<DrawOp>, above: Seq<DrawOp>|
        {
            &&& #[trigger] group.elements.0.draws(resources, location, below)
            &&& #[trigger] group.elements.1.draws(resources, location, above)
            &&& ops == below + above
        } {
        let (below, above) = choose|below: Seq<DrawOp>, above: Seq<DrawOp>|
            {
                &&& #[trigger] group.elements.0.draws(resources, location, below)
                &&& #[trigger] group.elements.1.draws(resources, location, above)
                &&& ops == below + above
            };
        assert(ops.take(below.len() as int) =~= below);
        assert(ops.skip(below.len() as int) =~= above);
        assert(group.elements.0.draws(resources, location, ops.take(below.len() as int)));
    }
}

/// A pair of layers reports that something was dropped exactly when at
/// least one child does: the answer is the disjunction of the children's
/// answers, and both children are asked.
pub proof fn lemma_layers_invalidate_any<A: InvalidateCache, B: InvalidateCache>(
    group: Layers<(A, B)>,
    addr: Addr,
    dropped: bool,
)
    ensures
        group.invalidates(addr, dropped) <==> exists|first: bool, second: bool|
            {
                &&& #[trigger] group.elements.0.invalidates(addr, first)
                &&& #[trigger] group.elements.1.invalidates(addr, second)
                &&& dropped == (first || second)
            },
{
}

/// Painting order of three layers: the group may draw exactly what its
/// children may draw into the group's region, the first child's operations
/// before the second's and those before the third's.
pub proof fn lemma_three_layers_paint_in_order<R, A: Element<R>, B: Element<R>, C: Element<R>>(
    group: Layers<(A, B, C)>,
    resources: &R,
    location: Extent,
    ops: Seq<DrawOp>,
)
    ensures
        group.draws(resources, location, ops) <==> exists|
            below: Seq<DrawOp>,
            between: Seq<DrawOp>,
            above: Seq<DrawOp>,
        |
            {
                &&& #[trigger] group.elements.0.draws(resources, location, below)
                &&& #[trigger] group.elements.1.draws(resources, location, between)
                &&& #[trigger] group.elements.2.draws(resources, location, above)
                &&& ops == below + between + above
            },
{
    if group.draws(resources, location, ops) {
        let (cut, then) = choose|cut: int, then: int|
            {
                &&& 0 <= cut <= then <= ops.len()
                &&& #[trigger] group.elements.0.draws(resources, location, ops.take(cut))
                &&& #[trigger] group.elements.1.draws(resources, location, ops.subrange(cut, then))
                &&& group.elements.2.draws(resources, location, ops.skip(then))
            };
        assert(ops =~= ops.take(cut) + ops.subrange(cut, then) + ops.skip(then));
        assert(group.elements.0.draws(resources, location, ops.take(cut)));
        assert(group.elements.1.draws(resources, location, ops.subrange(cut, then)));
        assert(group.elements.2.draws(resources, location, ops.skip(then)));
    }
    if exists|below: Seq<DrawOp>, between: Seq<DrawOp>, above: Seq<DrawOp>|
        {
            &&& #[trigger] group.elements.0.draws(resources, location, below)
            &&& #[trigger] group.elements.1.draws(resources, location, between)
            &&& #[trigger] group.elements.2.draws(resources, location, above)
            &&& ops == below + between + above
        } {
        let (below, between, above) = choose|
            below: Seq<DrawOp>,
            between: Seq<DrawOp>,
            above: Seq<DrawOp>,
        |
            {
                &&& #[trigger] group.elements.0.draws(resources, location, below)
                &&& #[trigger] group.elements.1.draws(resources, location, between)
                &&& #[trigger] group.elements.2.draws(resources, location, above)
                &&& ops == below + between + above
            };
        let cut = below.len() as int;
        let then = cut + between.len();
        assert(ops.take(cut) =~= below);
        assert(ops.subrange(cut, then) =~= between);
        assert(ops.skip(then) =~= above);
        assert(group.elements.0.draws(resources, location, ops.take(cut)));
        assert(group.elements.1.draws(resources, location, ops.subrange(cut, then)));
    }
}

/// Three layers report that something was dropped exactly when at least
/// one child does.
pub proof fn lemma_three_layers_invalidate_any<
    A: InvalidateCache,
    B: InvalidateCache,
    C: InvalidateCache,
>(group: Layers<(A, B, C)>, addr: Addr, dropped: bool)
    ensures
        group.invalidates(addr, dropped) <==> exists|first: bool, second: bool, third: bool|
            {
                &&& #[trigger] group.elements.0.invalidates(addr, first)
                &&& #[trigger] group.elements.1.invalidates(addr, second)
                &&& #[trigger] group.elements.2.invalidates(addr, third)
                &&& dropped == (first || second || third)
            },
{
}

} // verus!
