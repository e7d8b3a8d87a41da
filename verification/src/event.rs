//! Events and how a tree answers them.
//!
//! Dispatch is synchronous and depth-first. A group hands the event to every
//! child in declaration order, whatever the earlier children answered; a
//! failure does not stop the children after it. The group fails if any child
//! fails, and reports the first failure.

use vstd::prelude::*;
use crate::shared::Addr;

verus! {

/// What the host tells the tree.
#[derive(Clone, Copy, Debug, PartialEq, Eq, Structural)]
pub enum Event {
    /// The pointer moved to a grid position.
    PointerMoved { x: u32, y: u32 },
    /// A pointer button went down.
    PointerPressed,
    /// A pointer button went up.
    PointerReleased,
    /// A key went down.
    KeyPressed { code: u32 },
    /// The surface changed its size.
    Resized { width: u32, height: u32 },
}

/// Why a node could not handle an event: a code chosen by the node.
#[derive(Clone, Copy, Debug, PartialEq, Eq, Structural)]
pub struct EventError {
    pub code: u32,
}

/// The outcome of handling an event.
pub type EventResult = Result<(), EventError>;

/// The outcome of a group from the outcomes of two parts of it: the first
/// failure, or success if there is none.
pub open spec fn first_failure(first: EventResult, second: EventResult) -> EventResult {
    if first is Err {
        first
    } else {
        second
    }
}

/// Computes [`first_failure`].
pub fn merge_results(first: EventResult, second: EventResult) -> (merged: EventResult)
    ensures
        merged == first_failure(first, second),
        merged is Ok <==> first is Ok && second is Ok,
{
    match first {
        Err(error) => Err(error),
        Ok(()) => second,
    }
}

/// A node that can be handed an event.
pub trait HandleEvent: Sized {
    /// Whether handling `event` may turn this node into `after` and answer
    /// `result`.
    spec fn handles(self, event: Event, after: Self, result: EventResult) -> bool;

    /// Handles the event.
    fn handle_event(&mut self, event: &Event) -> (result: EventResult)
        ensures
            (*old(self)).handles(*event, *final(self), result),
    ;
}

/// A node that may hold values derived from shared cells.
pub trait InvalidateCache {
    /// Whether a request to drop what was derived from the cell at `addr`
    /// may be answered with `dropped`.
    spec fn invalidates(&self, addr: Addr, dropped: bool) -> bool;

    /// Drops what was derived from the cell at `addr`, and says whether
    /// anything was.
    fn invalidate_cache(&self, addr: Addr) -> (dropped: bool)
        ensures
            self.invalidates(addr, dropped),
    ;
}

impl<A: HandleEvent, B: HandleEvent> HandleEvent for (A, B) {
    open spec fn handles(self, event: Event, after: Self, result: EventResult) -> bool {
        exists|first: EventResult, second: EventResult|
            #![trigger self.0.handles(event, after.0, first), self.1.handles(event, after.1, second)]
            {
                &&& self.0.handles(event, after.0, first)
                &&& self.1.handles(event, after.1, second)
                &&& result == first_failure(first, second)
            }
    }

    fn handle_event(&mut self, event: &Event) -> (result: EventResult) {
        let ghost before = *self;
        let first = self.0.handle_event(event);
        let second = self.1.handle_event(event);
        assert(before.0.handles(*event, self.0, first));
        assert(before.1.handles(*event, self.1, second));
        merge_results(first, second)
    }
}

impl<A: HandleEvent, B: HandleEvent, C: HandleEvent> HandleEvent for (A, B, C) {
    open spec fn handles(self, event: Event, after: Self, result: EventResult) -> bool {
        exists|first: EventResult, second: EventResult, third: EventResult|
            #![trigger
                self.0.handles(event, after.0, first),
                self.1.handles(event, after.1, second),
                self.2.handles(event, after.2, third)]
            {
                &&& self.0.handles(event, after.0, first)
                &&& self.1.handles(event, after.1, second)
                &&& self.2.handles(event, after.2, third)
                &&& result == first_failure(first, first_failure(second, third))
            }
    }

    fn handle_event(&mut self, event: &Event) -> (result: EventResult) {
        let ghost before = *self;
        let first = self.0.handle_event(event);
        let second = self.1.handle_event(event);
        let third = self.2.handle_event(event);
        assert(before.0.handles(*event, self.0, first));
        assert(before.1.handles(*event, self.1, second));
        assert(before.2.handles(*event, self.2, third));
        merge_results(first, merge_results(second, third))
    }
}

impl<A: InvalidateCache, B: InvalidateCache> InvalidateCache for (A, B) {
    open spec fn invalidates(&self, addr: Addr, dropped: bool) -> bool {
        exists|first: bool, second: bool|
            #![trigger self.0.invalidates(addr, first), self.1.invalidates(addr, second)]
            {
                &&& self.0.invalidates(addr, first)
                &&& self.1.invalidates(addr, second)
                &&& dropped == (first || second)
            }
    }

    fn invalidate_cache(&self, addr: Addr) -> (dropped: bool) {
        let first = self.0.invalidate_cache(addr);
        let second = self.1.invalidate_cache(addr);
        assert(self.0.invalidates(addr, first));
        assert(self.1.invalidates(addr, second));
        first || second
    }
}

impl<A: InvalidateCache, B: InvalidateCache, C: InvalidateCache> InvalidateCache for (A, B, C) {
    open spec fn invalidates(&self, addr: Addr, dropped: bool) -> bool {
        exists|first: bool, second: bool, third: bool|
            #![trigger
                self.0.invalidates(addr, first),
                self.1.invalidates(addr, second),
                self.2.invalidates(addr, third)]
            {
                &&& self.0.invalidates(addr, first)
                &&& self.1.invalidates(addr, second)
                &&& self.2.invalidates(addr, third)
                &&& dropped == (first || second || third)
            }
    }

    fn invalidate_cache(&self, addr: Addr) -> (dropped: bool) {
        let first = self.0.invalidate_cache(addr);
        let second = self.1.invalidate_cache(addr);
        let third = self.2.invalidate_cache(addr);
        assert(self.0.invalidates(addr, first));
        assert(self.1.invalidates(addr, second));
        assert(self.2.invalidates(addr, third));
        first || second || third
    }
}

} // verus!
