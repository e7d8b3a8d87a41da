//! A filled rectangle.

use vstd::prelude::*;
use crate::anchors::bind;
use crate::anchors::AnchorKey;
use crate::anchors::ResolveAnchors;
use crate::build_pass::BuildNode;
use crate::drawer::Color;
use crate::drawer::DrawOp;
use crate::drawer::DrawPass;
use crate::element::DrawResult;
use crate::element::Element;
use crate::event::Event;
use crate::event::EventResult;
use crate::event::HandleEvent;
use crate::event::InvalidateCache;
use crate::location::Extent;
use crate::location::Location;
use crate::shared::Addr;
use crate::shared::Shared;

verus! {

/// An element that fills its whole region with one colour.
#[derive(Clone, Copy, Debug, PartialEq, Eq, Structural)]
pub struct Rect {
    pub color: Color,
}

/// A rectangle of the given colour.
pub fn rect(color: Color) -> (element: Rect)
    ensures
        element.color == color,
{
    Rect { color }
}

/// Whether `ops` is the single operation that fills `region` with `color`.
pub open spec fn fills(ops: Seq<DrawOp>, region: Extent, color: Color) -> bool {
    &&& ops.len() == 1
    &&& ops[0].location@ == region
    &&& ops[0].color == color
}

impl<R> Element<R> for Rect {
    open spec fn draws(&self, resources: &R, location: Extent, ops: Seq<DrawOp>) -> bool {
        fills(ops, location, self.color)
    }

    open spec fn steady(&self) -> bool {
        true
    }

    fn draw(&self, pass: &mut DrawPass, resources: &R, location: Location) -> (outcome:
        DrawResult) {
        pass.record(DrawOp { location, color: self.color });
        assert(pass@.take(old(pass)@.len() as int) =~= old(pass)@);
        Ok(())
    }
}

impl HandleEvent for Rect {
    open spec fn handles(self, event: Event, after: Self, result: EventResult) -> bool {
        after == self && result is Ok
    }

    fn handle_event(&mut self, event: &Event) -> (result: EventResult) {
        Ok(())
    }
}

impl InvalidateCache for Rect {
    open spec fn invalidates(&self, addr: Addr, dropped: bool) -> bool {
        !dropped
    }

    fn invalidate_cache(&self, addr: Addr) -> (dropped: bool) {
        false
    }
}

impl BuildNode for Rect {
    type Built = Rect;

    open spec fn declared(&self) -> Set<AnchorKey> {
        Set::empty()
    }

    open spec fn waiting(&self) -> Set<AnchorKey> {
        Set::empty()
    }

    open spec fn builds(self, built: Rect) -> bool {
        built == self
    }

    fn build_node(self) -> (built: Rect) {
        self
    }
}

impl<V> ResolveAnchors<V> for Rect {
    open spec fn keys(&self) -> Seq<AnchorKey> {
        Seq::empty()
    }

    open spec fn slots(&self, key: AnchorKey) -> Seq<Option<Shared<V>>> {
        Seq::empty()
    }

    open spec fn resolved(self, key: AnchorKey, cell: Shared<V>) -> Self {
        self
    }

    proof fn lemma_keys(&self, key: AnchorKey) {
    }

    proof fn lemma_slot_states(&self, key: AnchorKey) {
    }

    proof fn lemma_resolved(self, key: AnchorKey, cell: Shared<V>, other: AnchorKey) {
        assert(bind(Seq::<Option<Shared<V>>>::empty(), cell) =~= Seq::empty());
    }

    fn anchors(&self) -> (keys: Vec<AnchorKey>) {
        Vec::new()
    }

    fn get_anchor(&self, key: AnchorKey) -> (found: Option<Shared<V>>) {
        None
    }

    fn resolve_anchor(&mut self, key: AnchorKey, cell: &Shared<V>) {
    }
}

} // verus!
