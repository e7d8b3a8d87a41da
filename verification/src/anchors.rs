//! Anchors: how nodes of one tree come to share a cell.
//!
//! An anchor is a key for "the one shared value of this kind in this tree".
//! A node of the description may declare the cell behind an anchor, or only
//! ask for it. Before the tree is built, the first declared cell in
//! traversal order is handed to every node that asked; a node that already
//! holds a cell keeps it.

use vstd::prelude::*;
use vstd::seq_lib::lemma_seq_concat_contains_all_elements;
use crate::build_pass::BuildNode;
use crate::shared::Shared;
use crate::values::AutoValueSource;
use crate::values::Computed;

verus! {

/// The identity of an anchor. Two slots mean the same shared value exactly
/// when their keys are equal.
#[derive(Clone, Copy, Debug, PartialEq, Eq, Hash, Structural)]
pub struct AnchorKey(pub u64);

/// The first cell held by any of the slots, in their order.
pub open spec fn first_bound<V>(slots: Seq<Option<Shared<V>>>) -> Option<Shared<V>>
    decreases slots.len(),
{
    if slots.len() == 0 {
        None
    } else if slots.first() is Some {
        slots.first()
    } else {
        first_bound(slots.skip(1))
    }
}

/// The slots after `cell` was handed to them: an empty slot takes it, a
/// slot that holds a cell keeps its own.
pub open spec fn bind<V>(slots: Seq<Option<Shared<V>>>, cell: Shared<V>) -> Seq<Option<Shared<V>>> {
    Seq::new(
        slots.len(),
        |i: int|
            if slots[i] is Some {
                slots[i]
            } else {
                Some(cell)
            },
    )
}

/// Looking through two runs of slots finds what the first run holds, and
/// turns to the second only if the first holds nothing.
pub proof fn lemma_first_bound_concat<V>(
    first: Seq<Option<Shared<V>>>,
    second: Seq<Option<Shared<V>>>,
)
    ensures
        first_bound(first + second) == (if first_bound(first) is Some {
            first_bound(first)
        } else {
            first_bound(second)
        }),
    decreases first.len(),
{
    if first.len() == 0 {
        assert(first + second =~= second);
    } else {
        assert((first + second).first() == first.first());
        assert((first + second).skip(1) =~= first.skip(1) + second);
        lemma_first_bound_concat(first.skip(1), second);
    }
}

/// Handing a cell to two runs of slots hands it to each.
pub proof fn lemma_bind_concat<V>(
    first: Seq<Option<Shared<V>>>,
    second: Seq<Option<Shared<V>>>,
    cell: Shared<V>,
)
    ensures
        bind(first + second, cell) == bind(first, cell) + bind(second, cell),
{
    assert(bind(first + second, cell) =~= bind(first, cell) + bind(second, cell));
}

/// After a cell was handed out no slot is empty, handing it out again
/// changes nothing, and looking for a cell finds what the first slot held,
/// or else the cell that was handed out.
pub proof fn lemma_bind_fills<V>(slots: Seq<Option<Shared<V>>>, cell: Shared<V>)
    ensures
        bind(slots, cell).len() == slots.len(),
        forall|i: int| 0 <= i < slots.len() ==> (#[trigger] bind(slots, cell)[i]) is Some,
        slots.len() > 0 ==> first_bound(bind(slots, cell)) == (if slots.first() is Some {
            slots.first()
        } else {
            Some(cell)
        }),
        first_bound(slots) == Some(cell) ==> first_bound(bind(slots, cell)) == Some(cell),
        bind(bind(slots, cell), cell) == bind(slots, cell),
{
    assert(bind(bind(slots, cell), cell) =~= bind(slots, cell));
    if slots.len() > 0 {
        assert(bind(slots, cell).first() == bind(slots, cell)[0]);
    }
}

/// A run of slots that holds nothing has only empty slots, and the reverse.
pub proof fn lemma_first_bound_none<V>(slots: Seq<Option<Shared<V>>>)
    ensures
        first_bound(slots) is None <==> (forall|i: int|
            0 <= i < slots.len() ==> (#[trigger] slots[i]) is None),
    decreases slots.len(),
{
    if slots.len() > 0 {
        lemma_first_bound_none(slots.skip(1));
        if slots.first() is None {
            if first_bound(slots) is None {
                assert forall|i: int| 0 <= i < slots.len() implies (#[trigger] slots[i]) is None by {
                    if i > 0 {
                        assert(slots.skip(1)[i - 1] is None);
                    }
                }
            } else {
                let j = choose|j: int|
                    0 <= j < slots.skip(1).len() && !((#[trigger] slots.skip(1)[j]) is None);
                assert(slots[j + 1] == slots.skip(1)[j]);
            }
        } else {
            assert(slots[0] is Some);
        }
    }
}

/// Whether any of the slots still waits for a cell.
pub open spec fn any_waiting<V>(slots: Seq<Option<Shared<V>>>) -> bool {
    exists|i: int| 0 <= i < slots.len() && (#[trigger] slots[i]) is None
}

/// A slot of two runs waits exactly when a slot of one of them does.
pub proof fn lemma_any_waiting_concat<V>(
    first: Seq<Option<Shared<V>>>,
    second: Seq<Option<Shared<V>>>,
)
    ensures
        any_waiting(first + second) <==> any_waiting(first) || any_waiting(second),
{
    let both = first + second;
    if any_waiting(first) {
        let i = choose|i: int| 0 <= i < first.len() && (#[trigger] first[i]) is None;
        assert(both[i] is None);
    }
    if any_waiting(second) {
        let i = choose|i: int| 0 <= i < second.len() && (#[trigger] second[i]) is None;
        assert(both[first.len() + i] is None);
    }
    if any_waiting(both) {
        let i = choose|i: int| 0 <= i < both.len() && (#[trigger] both[i]) is None;
        if i < first.len() {
            assert(first[i] is None);
        } else {
            assert(second[i - first.len()] is None);
        }
    }
}

/// Where every slot holds a cell, none waits.
pub proof fn lemma_none_waiting<V>(slots: Seq<Option<Shared<V>>>)
    requires
        forall|i: int| 0 <= i < slots.len() ==> (#[trigger] slots[i]) is Some,
    ensures
        !any_waiting(slots),
{
}

/// A node of a description that takes part in anchor resolution.
///
/// `V` is the kind of value that the tree's anchors stand for.
pub trait ResolveAnchors<V>: BuildNode {
    /// The anchors this node and its descendants expose, one entry per slot,
    /// in traversal order. A group exposes what its children expose.
    spec fn keys(&self) -> Seq<AnchorKey>;

    /// What the slots for `key` hold, in traversal order: a cell, or nothing yet.
    spec fn slots(&self, key: AnchorKey) -> Seq<Option<Shared<V>>>;

    /// The node after `cell` was handed to every slot for `key`.
    spec fn resolved(self, key: AnchorKey, cell: Shared<V>) -> Self;

    /// A node has a slot for exactly the anchors it exposes.
    proof fn lemma_keys(&self, key: AnchorKey)
        ensures
            self.keys().contains(key) <==> self.slots(key).len() > 0,
    ;

    /// The anchors that a node holds a cell for, and those it waits for,
    /// are the ones whose slots say so.
    proof fn lemma_slot_states(&self, key: AnchorKey)
        ensures
            self.declared().contains(key) <==> first_bound(self.slots(key)) is Some,
            self.waiting().contains(key) <==> any_waiting(self.slots(key)),
    ;

    /// Handing out a cell for one anchor fills the empty slots for that
    /// anchor, and changes no slot that holds a cell nor any slot for
    /// another anchor.
    proof fn lemma_resolved(self, key: AnchorKey, cell: Shared<V>, other: AnchorKey)
        ensures
            self.resolved(key, cell).keys() == self.keys(),
            self.resolved(key, cell).slots(other) == (if other == key {
                bind(self.slots(key), cell)
            } else {
                self.slots(other)
            }),
    ;

    /// Lists the anchors this node exposes.
    fn anchors(&self) -> (keys: Vec<AnchorKey>)
        ensures
            keys@ == self.keys(),
    ;

    /// Looks for a cell behind `key`: the node's own first, then its
    /// children's in declaration order. The first one found is returned.
    fn get_anchor(&self, key: AnchorKey) -> (found: Option<Shared<V>>)
        ensures
            found == first_bound(self.slots(key)),
    ;

    /// Hands `cell` to every slot for `key` that holds nothing yet.
    fn resolve_anchor(&mut self, key: AnchorKey, cell: &Shared<V>)
        ensures
            *final(self) == (*old(self)).resolved(key, *cell),
    ;
}

/// A place in a description where a shared value of kind `V` goes.
#[verifier::reject_recursive_types(V)]
pub enum Anchored<V> {
    /// The slot holds a cell: one it declared, or one it was handed.
    Bound { key: AnchorKey, cell: Shared<V> },
    /// The slot asks for the cell behind `key`. If the tree is built before
    /// anyone hands it one, it makes its own, holding `initial`.
    Unbound { key: AnchorKey, initial: V },
}

impl<V> Anchored<V> {
    /// The anchor this slot belongs to.
    pub open spec fn key(&self) -> AnchorKey {
        match self {
            Anchored::Bound { key, .. } => *key,
            Anchored::Unbound { key, .. } => *key,
        }
    }

    /// The cell this slot holds, if any.
    pub open spec fn cell(&self) -> Option<Shared<V>> {
        match self {
            Anchored::Bound { cell, .. } => Some(*cell),
            Anchored::Unbound { .. } => None,
        }
    }

    /// Whether the slot still waits for a cell.
    pub fn is_unbound(&self) -> (unbound: bool)
        ensures
            unbound == (self.cell() is None),
    {
        match self {
            Anchored::Bound { .. } => false,
            Anchored::Unbound { .. } => true,
        }
    }

    /// Computes [`Anchored::key`].
    pub fn anchor_key(&self) -> (key: AnchorKey)
        ensures
            key == self.key(),
    {
        match self {
            Anchored::Bound { key, .. } => *key,
            Anchored::Unbound { key, .. } => *key,
        }
    }
}

/// A slot that declares `cell` as the value behind `key`.
pub fn declare<V>(key: AnchorKey, cell: Shared<V>) -> (slot: Anchored<V>)
    ensures
        slot == (Anchored::Bound { key, cell }),
{
    Anchored::Bound { key, cell }
}

/// A slot that asks for the value behind `key`, and falls back to a cell of
/// its own that starts as `initial`.
pub fn anchor<V>(key: AnchorKey, initial: V) -> (slot: Anchored<V>)
    ensures
        slot == (Anchored::Unbound { key, initial }),
{
    Anchored::Unbound { key, initial }
}

impl<V> ResolveAnchors<V> for Anchored<V> {
    open spec fn keys(&self) -> Seq<AnchorKey> {
        seq![self.key()]
    }

    open spec fn slots(&self, key: AnchorKey) -> Seq<Option<Shared<V>>> {
        if self.key() == key {
            seq![self.cell()]
        } else {
            Seq::empty()
        }
    }

    open spec fn resolved(self, key: AnchorKey, cell: Shared<V>) -> Self {
        if self.key() == key && self.cell() is None {
            Anchored::Bound { key, cell }
        } else {
            self
        }
    }

    proof fn lemma_keys(&self, key: AnchorKey) {
        assert(seq![self.key()][0] == self.key());
    }

    proof fn lemma_slot_states(&self, key: AnchorKey) {
        if self.key() == key {
            assert(self.slots(key)[0] == self.cell());
            assert(self.slots(key).first() == self.cell());
            assert(first_bound(self.slots(key).skip(1)) is None);
        }
    }

    proof fn lemma_resolved(self, key: AnchorKey, cell: Shared<V>, other: AnchorKey) {
        assert(self.resolved(key, cell).slots(other) =~= (if other == key {
            bind(self.slots(key), cell)
        } else {
            self.slots(other)
        }));
    }

    fn anchors(&self) -> (keys: Vec<AnchorKey>) {
        let mut keys: Vec<AnchorKey> = Vec::new();
        keys.push(self.anchor_key());
        assert(keys@ =~= seq![self.key()]);
        keys
    }

    fn get_anchor(&self, key: AnchorKey) -> (found: Option<Shared<V>>) {
        match self {
            Anchored::Bound { key: own, cell } => {
                if *own == key {
                    assert(self.slots(key).first() == Some(*cell));
                    Some(cell.clone())
                } else {
                    None
                }
            },
            Anchored::Unbound { key: own, .. } => {
                if *own == key {
                    assert(self.slots(key).first() is None);
                    assert(first_bound(self.slots(key).skip(1)) is None);
                }
                None
            },
        }
    }

    fn resolve_anchor(&mut self, key: AnchorKey, cell: &Shared<V>) {
        if self.is_unbound() && self.anchor_key() == key {
            *self = Anchored::Bound { key, cell: cell.clone() };
        }
    }
}

impl<V, T: AutoValueSource> ResolveAnchors<V> for T {
    open spec fn keys(&self) -> Seq<AnchorKey> {
        Seq::empty()
    }

    open spec fn slots(&self, key: AnchorKey) -> Seq<Option<Shared<V>>> {
        Seq::empty()
    }

    open spec fn resolved(self, key: AnchorKey, cell: Shared<V>) -> Self {
        self
    }

    proof fn lemma_keys(&self, key: AnchorKey) {
    }

    proof fn lemma_slot_states(&self, key: AnchorKey) {
    }

    proof fn lemma_resolved(self, key: AnchorKey, cell: Shared<V>, other: AnchorKey) {
        assert(bind(Seq::<Option<Shared<V>>>::empty(), cell) =~= Seq::empty());
    }

    fn anchors(&self) -> (keys: Vec<AnchorKey>) {
        Vec::new()
    }

    fn get_anchor(&self, key: AnchorKey) -> (found: Option<Shared<V>>) {
        None
    }

    fn resolve_anchor(&mut self, key: AnchorKey, cell: &Shared<V>) {
    }
}

impl<V> ResolveAnchors<V> for String {
    open spec fn keys(&self) -> Seq<AnchorKey> {
        Seq::empty()
    }

    open spec fn slots(&self, key: AnchorKey) -> Seq<Option<Shared<V>>> {
        Seq::empty()
    }

    open spec fn resolved(self, key: AnchorKey, cell: Shared<V>) -> Self {
        self
    }

    proof fn lemma_keys(&self, key: AnchorKey) {
    }

    proof fn lemma_slot_states(&self, key: AnchorKey) {
    }

    proof fn lemma_resolved(self, key: AnchorKey, cell: Shared<V>, other: AnchorKey) {
        assert(bind(Seq::<Option<Shared<V>>>::empty(), cell) =~= Seq::empty());
    }

    fn anchors(&self) -> (keys: Vec<AnchorKey>) {
        Vec::new()
    }

    fn get_anchor(&self, key: AnchorKey) -> (found: Option<Shared<V>>) {
        None
    }

    fn resolve_anchor(&mut self, key: AnchorKey, cell: &Shared<V>) {
    }
}

impl<V, W, F: Fn() -> W> ResolveAnchors<V> for Computed<W, F> {
    open spec fn keys(&self) -> Seq<AnchorKey> {
        Seq::empty()
    }

    open spec fn slots(&self, key: AnchorKey) -> Seq<Option<Shared<V>>> {
        Seq::empty()
    }

    open spec fn resolved(self, key: AnchorKey, cell: Shared<V>) -> Self {
        self
    }

    proof fn lemma_keys(&self, key: AnchorKey) {
    }

    proof fn lemma_slot_states(&self, key: AnchorKey) {
    }

    proof fn lemma_resolved(self, key: AnchorKey, cell: Shared<V>, other: AnchorKey) {
        assert(bind(Seq::<Option<Shared<V>>>::empty(), cell) =~= Seq::empty());
    }

    fn anchors(&self) -> (keys: Vec<AnchorKey>) {
        Vec::new()
    }

    fn get_anchor(&self, key: AnchorKey) -> (found: Option<Shared<V>>) {
        None
    }

    fn resolve_anchor(&mut self, key: AnchorKey, cell: &Shared<V>) {
    }
}

impl<V, A: ResolveAnchors<V>, B: ResolveAnchors<V>> ResolveAnchors<V> for (A, B) {
    open spec fn keys(&self) -> Seq<AnchorKey> {
        self.0.keys() + self.1.keys()
    }

    open spec fn slots(&self, key: AnchorKey) -> Seq<Option<Shared<V>>> {
        self.0.slots(key) + self.1.slots(key)
    }

    open spec fn resolved(self, key: AnchorKey, cell: Shared<V>) -> Self {
        (self.0.resolved(key, cell), self.1.resolved(key, cell))
    }

    proof fn lemma_keys(&self, key: AnchorKey) {
        self.0.lemma_keys(key);
        self.1.lemma_keys(key);
        lemma_seq_concat_contains_all_elements(self.0.keys(), self.1.keys(), key);
    }

    proof fn lemma_slot_states(&self, key: AnchorKey) {
        self.0.lemma_slot_states(key);
        self.1.lemma_slot_states(key);
        lemma_first_bound_concat(self.0.slots(key), self.1.slots(key));
        lemma_any_waiting_concat(self.0.slots(key), self.1.slots(key));
    }

    proof fn lemma_resolved(self, key: AnchorKey, cell: Shared<V>, other: AnchorKey) {
        self.0.lemma_resolved(key, cell, other);
        self.1.lemma_resolved(key, cell, other);
        lemma_bind_concat(self.0.slots(key), self.1.slots(key), cell);
    }

    fn anchors(&self) -> (keys: Vec<AnchorKey>) {
        let mut keys = self.0.anchors();
        let mut more = self.1.anchors();
        keys.append(&mut more);
        keys
    }

    fn get_anchor(&self, key: AnchorKey) -> (found: Option<Shared<V>>) {
        proof {
            lemma_first_bound_concat(self.0.slots(key), self.1.slots(key));
        }
        match self.0.get_anchor(key) {
            Some(cell) => Some(cell),
            None => self.1.get_anchor(key),
        }
    }

    fn resolve_anchor(&mut self, key: AnchorKey, cell: &Shared<V>) {
        self.0.resolve_anchor(key, cell);
        self.1.resolve_anchor(key, cell);
    }
}

impl<V, A: ResolveAnchors<V>, B: ResolveAnchors<V>, C: ResolveAnchors<V>> ResolveAnchors<V> for (
    A,
    B,
    C,
) {
    open spec fn keys(&self) -> Seq<AnchorKey> {
        self.0.keys() + self.1.keys() + self.2.keys()
    }

    open spec fn slots(&self, key: AnchorKey) -> Seq<Option<Shared<V>>> {
        self.0.slots(key) + self.1.slots(key) + self.2.slots(key)
    }

    open spec fn resolved(self, key: AnchorKey, cell: Shared<V>) -> Self {
        (self.0.resolved(key, cell), self.1.resolved(key, cell), self.2.resolved(key, cell))
    }

    proof fn lemma_keys(&self, key: AnchorKey) {
        self.0.lemma_keys(key);
        self.1.lemma_keys(key);
        self.2.lemma_keys(key);
        lemma_seq_concat_contains_all_elements(self.0.keys(), self.1.keys(), key);
        lemma_seq_concat_contains_all_elements(self.0.keys() + self.1.keys(), self.2.keys(), key);
    }

    proof fn lemma_slot_states(&self, key: AnchorKey) {
        self.0.lemma_slot_states(key);
        self.1.lemma_slot_states(key);
        self.2.lemma_slot_states(key);
        lemma_first_bound_concat(self.0.slots(key), self.1.slots(key));
        lemma_first_bound_concat(self.0.slots(key) + self.1.slots(key), self.2.slots(key));
        lemma_any_waiting_concat(self.0.slots(key), self.1.slots(key));
        lemma_any_waiting_concat(self.0.slots(key) + self.1.slots(key), self.2.slots(key));
    }

    proof fn lemma_resolved(self, key: AnchorKey, cell: Shared<V>, other: AnchorKey) {
        self.0.lemma_resolved(key, cell, other);
        self.1.lemma_resolved(key, cell, other);
        self.2.lemma_resolved(key, cell, other);
        lemma_bind_concat(self.0.slots(key), self.1.slots(key), cell);
        lemma_bind_concat(self.0.slots(key) + self.1.slots(key), self.2.slots(key), cell);
    }

    fn anchors(&self) -> (keys: Vec<AnchorKey>) {
        let mut keys = self.0.anchors();
        let mut more = self.1.anchors();
        let mut last = self.2.anchors();
        keys.append(&mut more);
        keys.append(&mut last);
        keys
    }

    fn get_anchor(&self, key: AnchorKey) -> (found: Option<Shared<V>>) {
        proof {
            lemma_first_bound_concat(self.0.slots(key), self.1.slots(key));
            lemma_first_bound_concat(self.0.slots(key) + self.1.slots(key), self.2.slots(key));
        }
        match self.0.get_anchor(key) {
            Some(cell) => Some(cell),
            None => match self.1.get_anchor(key) {
                Some(cell) => Some(cell),
                None => self.2.get_anchor(key),
            },
        }
    }

    fn resolve_anchor(&mut self, key: AnchorKey, cell: &Shared<V>) {
        self.0.resolve_anchor(key, cell);
        self.1.resolve_anchor(key, cell);
        self.2.resolve_anchor(key, cell);
    }
}

} // verus!
