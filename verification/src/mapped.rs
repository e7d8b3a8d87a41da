//! Values of one kind read out of cells of another.
//!
//! The anchors of one tree stand for cells of one type. Where a tree needs
//! shared values of several kinds, the cells hold a type that has a case for
//! each kind, every anchor keeps to one case, and each element reads its
//! own kind through a [`Mapped`] source.

use vstd::prelude::*;
use core::marker::PhantomData;
use crate::anchors::AnchorKey;
use crate::anchors::ResolveAnchors;
use crate::build_pass::BuildNode;
use crate::event::InvalidateCache;
use crate::shared::Addr;
use crate::shared::LockError;
use crate::shared::Shared;
use crate::values::ValueSource;

verus! {

/// A function that takes every value of `V`.
#[verifier::reject_recursive_types(V)]
#[verifier::reject_recursive_types(W)]
#[verifier::reject_recursive_types(F)]
pub struct Mapping<V, W, F: Fn(V) -> W> {
    map: F,
    from: PhantomData<V>,
    to: PhantomData<W>,
}

impl<V, W, F: Fn(V) -> W> Mapping<V, W, F> {
    #[verifier::type_invariant]
    pub closed spec fn total(self) -> bool {
        forall|value: V| call_requires(self.map, (value,))
    }

    /// Whether the function may give `mapped` for `value`.
    pub closed spec fn maps(&self, value: V, mapped: W) -> bool {
        call_ensures(self.map, (value,), mapped)
    }

    /// Calls the function.
    pub fn apply(&self, value: V) -> (mapped: W)
        ensures
            self.maps(value, mapped),
    {
        proof {
            use_type_invariant(self);
        }
        (self.map)(value)
    }
}

/// A source whose value is computed, on every read, from the value of
/// another source.
#[verifier::reject_recursive_types(V)]
#[verifier::reject_recursive_types(W)]
#[verifier::reject_recursive_types(F)]
pub struct Mapped<Src, V, W, F: Fn(V) -> W> {
    pub source: Src,
    pub map: Mapping<V, W, F>,
}

/// The source that reads `source` and hands its value through `map`.
pub fn mapped<Src, V, W, F: Fn(V) -> W>(source: Src, map: F) -> (derived: Mapped<Src, V, W, F>)
    requires
        forall|value: V| call_requires(map, (value,)),
    ensures
        derived.source == source,
        forall|value: V, to: W| derived.map.maps(value, to) == call_ensures(map, (value,), to),
{
    Mapped { source, map: Mapping { map, from: PhantomData, to: PhantomData } }
}

impl<Src: ValueSource<Value = V>, V, W, F: Fn(V) -> W> ValueSource for Mapped<Src, V, W, F> {
    type Value = W;

    /// What some value of the inner source is mapped to.
    open spec fn yields(&self, value: W) -> bool {
        exists|inner: V| #[trigger] self.source.yields(inner) && self.map.maps(inner, value)
    }

    /// Reading fails only where reading the inner source does.
    open spec fn steady(&self) -> bool {
        self.source.steady()
    }

    fn value(&self) -> (read: Result<W, LockError>) {
        match self.source.value() {
            Ok(inner) => {
                let value = self.map.apply(inner);
                assert(self.source.yields(inner) && self.map.maps(inner, value));
                Ok(value)
            },
            Err(error) => Err(error),
        }
    }
}

impl<Src: InvalidateCache, V, W, F: Fn(V) -> W> InvalidateCache for Mapped<Src, V, W, F> {
    /// A derived value depends on what its source depends on.
    open spec fn invalidates(&self, addr: Addr, dropped: bool) -> bool {
        self.source.invalidates(addr, dropped)
    }

    fn invalidate_cache(&self, addr: Addr) -> (dropped: bool) {
        self.source.invalidate_cache(addr)
    }
}

impl<Src: BuildNode, V, W, F: Fn(V) -> W> BuildNode for Mapped<Src, V, W, F> {
    type Built = Mapped<Src::Built, V, W, F>;

    open spec fn declared(&self) -> Set<AnchorKey> {
        self.source.declared()
    }

    open spec fn waiting(&self) -> Set<AnchorKey> {
        self.source.waiting()
    }

    /// The inner source is built; the mapping stays.
    open spec fn builds(self, built: Mapped<Src::Built, V, W, F>) -> bool {
        self.source.builds(built.source) && built.map == self.map
    }

    fn build_node(self) -> (built: Mapped<Src::Built, V, W, F>) {
        Mapped { source: self.source.build_node(), map: self.map }
    }
}

impl<K, Src: ResolveAnchors<K>, V, W, F: Fn(V) -> W> ResolveAnchors<K> for Mapped<Src, V, W, F> {
    open spec fn keys(&self) -> Seq<AnchorKey> {
        self.source.keys()
    }

    open spec fn slots(&self, key: AnchorKey) -> Seq<Option<Shared<K>>> {
        self.source.slots(key)
    }

    open spec fn resolved(self, key: AnchorKey, cell: Shared<K>) -> Self {
        Mapped { source: self.source.resolved(key, cell), map: self.map }
    }

    proof fn lemma_keys(&self, key: AnchorKey) {
        self.source.lemma_keys(key);
    }

    proof fn lemma_slot_states(&self, key: AnchorKey) {
        self.source.lemma_slot_states(key);
    }

    proof fn lemma_resolved(self, key: AnchorKey, cell: Shared<K>, other: AnchorKey) {
        self.source.lemma_resolved(key, cell, other);
    }

    fn anchors(&self) -> (keys: Vec<AnchorKey>) {
        self.source.anchors()
    }

    fn get_anchor(&self, key: AnchorKey) -> (found: Option<Shared<K>>) {
        self.source.get_anchor(key)
    }

    fn resolve_anchor(&mut self, key: AnchorKey, cell: &Shared<K>) {
        self.source.resolve_anchor(key, cell);
    }
}

} // verus!
