//! The build pass: from a description to a tree that can run.
//!
//! Building happens once. First every anchor the description exposes is
//! resolved, in a single pass over the anchors; then each node is turned
//! into its built form. A built tree has no slot left that waits for a
//! cell: the type of a built node has no room for one.

use vstd::prelude::*;
use crate::anchors::bind;
use crate::anchors::first_bound;
use crate::anchors::lemma_bind_concat;
use crate::anchors::lemma_bind_fills;
use crate::anchors::lemma_first_bound_concat;
use crate::anchors::lemma_first_bound_none;
use crate::anchors::lemma_none_waiting;
use crate::anchors::AnchorKey;
use crate::anchors::Anchored;
use crate::anchors::ResolveAnchors;
use crate::shared::Shared;
use crate::values::AutoValueSource;
use crate::values::Computed;

verus! {

/// Where two groups together keep their held anchors apart from their
/// awaited ones, each group does so alone.
pub proof fn lemma_disjoint_parts(
    held: Set<AnchorKey>,
    more_held: Set<AnchorKey>,
    awaited: Set<AnchorKey>,
    more_awaited: Set<AnchorKey>,
)
    requires
        (held + more_held).disjoint(awaited + more_awaited),
    ensures
        held.disjoint(awaited),
        more_held.disjoint(more_awaited),
{
    assert forall|key: AnchorKey| held.contains(key) implies !awaited.contains(key) by {
        if awaited.contains(key) {
            assert((held + more_held).contains(key));
            assert((awaited + more_awaited).contains(key));
        }
    }
    assert forall|key: AnchorKey| more_held.contains(key) implies !more_awaited.contains(key) by {
        if more_awaited.contains(key) {
            assert((held + more_held).contains(key));
            assert((awaited + more_awaited).contains(key));
        }
    }
}

/// A node of a description that can be turned into its built form, once its
/// anchors are resolved.
pub trait BuildNode: Sized {
    /// The built form.
    type Built;

    /// The anchors for which a slot of this node or of a descendant holds
    /// a cell.
    spec fn declared(&self) -> Set<AnchorKey>;

    /// The anchors for which a slot of this node or of a descendant still
    /// waits for a cell.
    spec fn waiting(&self) -> Set<AnchorKey>;

    /// Whether building this node may give `built`.
    spec fn builds(self, built: Self::Built) -> bool;

    /// The second step of a build: turns this node, whose anchors are
    /// resolved, into its built form.
    ///
    /// Resolved means that no anchor has both a slot that holds a cell and
    /// a slot that waits for one. A slot may still wait where nobody holds a
    /// cell for its anchor; it is then built with a cell of its own.
    fn build_node(self) -> (built: Self::Built)
        requires
            self.declared().disjoint(self.waiting()),
        ensures
            self.builds(built),
    ;
}

impl<T: AutoValueSource> BuildNode for T {
    type Built = T;

    open spec fn declared(&self) -> Set<AnchorKey> {
        Set::empty()
    }

    open spec fn waiting(&self) -> Set<AnchorKey> {
        Set::empty()
    }

    open spec fn builds(self, built: T) -> bool {
        built == self
    }

    fn build_node(self) -> (built: T) {
        self
    }
}

impl BuildNode for String {
    type Built = String;

    open spec fn declared(&self) -> Set<AnchorKey> {
        Set::empty()
    }

    open spec fn waiting(&self) -> Set<AnchorKey> {
        Set::empty()
    }

    open spec fn builds(self, built: String) -> bool {
        built == self
    }

    fn build_node(self) -> (built: String) {
        self
    }
}

impl<V, F: Fn() -> V> BuildNode for Computed<V, F> {
    type Built = Computed<V, F>;

    open spec fn declared(&self) -> Set<AnchorKey> {
        Set::empty()
    }

    open spec fn waiting(&self) -> Set<AnchorKey> {
        Set::empty()
    }

    open spec fn builds(self, built: Computed<V, F>) -> bool {
        built == self
    }

    fn build_node(self) -> (built: Computed<V, F>) {
        self
    }
}

impl<V> BuildNode for Anchored<V> {
    type Built = Shared<V>;

    open spec fn declared(&self) -> Set<AnchorKey> {
        match self {
            Anchored::Bound { key, .. } => set![*key],
            Anchored::Unbound { .. } => Set::empty(),
        }
    }

    open spec fn waiting(&self) -> Set<AnchorKey> {
        match self {
            Anchored::Bound { .. } => Set::empty(),
            Anchored::Unbound { key, .. } => set![*key],
        }
    }

    /// A slot that holds a cell builds to that cell. A slot that still
    /// waits builds to a cell of its own, created with the slot's initial
    /// value.
    open spec fn builds(self, built: Shared<V>) -> bool {
        match self {
            Anchored::Bound { cell, .. } => built == cell,
            Anchored::Unbound { initial, .. } => built.initial() == initial,
        }
    }

    fn build_node(self) -> (built: Shared<V>) {
        match self {
            Anchored::Bound { cell, .. } => cell,
            Anchored::Unbound { initial, .. } => Shared::new(initial),
        }
    }
}

impl<A: BuildNode, B: BuildNode> BuildNode for (A, B) {
    type Built = (A::Built, B::Built);

    open spec fn declared(&self) -> Set<AnchorKey> {
        self.0.declared() + self.1.declared()
    }

    open spec fn waiting(&self) -> Set<AnchorKey> {
        self.0.waiting() + self.1.waiting()
    }

    open spec fn builds(self, built: (A::Built, B::Built)) -> bool {
        self.0.builds(built.0) && self.1.builds(built.1)
    }

    fn build_node(self) -> (built: (A::Built, B::Built)) {
        proof {
            lemma_disjoint_parts(
                self.0.declared(),
                self.1.declared(),
                self.0.waiting(),
                self.1.waiting(),
            );
        }
        (self.0.build_node(), self.1.build_node())
    }
}

impl<A: BuildNode, B: BuildNode, C: BuildNode> BuildNode for (A, B, C) {
    type Built = (A::Built, B::Built, C::Built);

    open spec fn declared(&self) -> Set<AnchorKey> {
        self.0.declared() + self.1.declared() + self.2.declared()
    }

    open spec fn waiting(&self) -> Set<AnchorKey> {
        self.0.waiting() + self.1.waiting() + self.2.waiting()
    }

    open spec fn builds(self, built: (A::Built, B::Built, C::Built)) -> bool {
        self.0.builds(built.0) && self.1.builds(built.1) && self.2.builds(built.2)
    }

    fn build_node(self) -> (built: (A::Built, B::Built, C::Built)) {
        proof {
            lemma_disjoint_parts(
                self.0.declared() + self.1.declared(),
                self.2.declared(),
                self.0.waiting() + self.1.waiting(),
                self.2.waiting(),
            );
            lemma_disjoint_parts(
                self.0.declared(),
                self.1.declared(),
                self.0.waiting(),
                self.1.waiting(),
            );
        }
        (self.0.build_node(), self.1.build_node(), self.2.build_node())
    }
}

/// The slots for one anchor once it is resolved: if any slot holds a cell,
/// the first such cell is handed to the empty ones; if none does, the
/// anchor stays unbound.
pub open spec fn settled<V>(slots: Seq<Option<Shared<V>>>) -> Seq<Option<Shared<V>>> {
    match first_bound(slots) {
        Some(cell) => bind(slots, cell),
        None => slots,
    }
}

/// The tree after the anchor `key` was resolved.
pub open spec fn resolved_one<V, T: ResolveAnchors<V>>(tree: T, key: AnchorKey) -> T {
    match first_bound(tree.slots(key)) {
        Some(cell) => tree.resolved(key, cell),
        None => tree,
    }
}

/// The tree after the anchors in `keys` were resolved one after the other.
pub open spec fn resolved_all<V, T: ResolveAnchors<V>>(tree: T, keys: Seq<AnchorKey>) -> T
    decreases keys.len(),
{
    if keys.len() == 0 {
        tree
    } else {
        resolved_one(resolved_all(tree, keys.drop_last()), keys.last())
    }
}

/// Resolving one anchor settles its slots and touches no other anchor's.
pub proof fn lemma_resolved_one<V, T: ResolveAnchors<V>>(tree: T, key: AnchorKey, other: AnchorKey)
    ensures
        resolved_one(tree, key).keys() == tree.keys(),
        resolved_one(tree, key).slots(other) == (if other == key {
            settled(tree.slots(key))
        } else {
            tree.slots(other)
        }),
{
    if let Some(cell) = first_bound(tree.slots(key)) {
        tree.lemma_resolved(key, cell, other);
    }
}

/// Settled slots stay as they are when settled again.
pub proof fn lemma_settled_twice<V>(slots: Seq<Option<Shared<V>>>)
    ensures
        settled(settled(slots)) == settled(slots),
        first_bound(settled(slots)) == first_bound(slots),
        settled(slots).len() == slots.len(),
{
    if let Some(cell) = first_bound(slots) {
        lemma_bind_fills(slots, cell);
    }
}

/// What a pass over `keys` does to the slots of any anchor: those of an
/// anchor in `keys` are settled, all others are as before.
pub proof fn lemma_resolved_all<V, T: ResolveAnchors<V>>(
    tree: T,
    keys: Seq<AnchorKey>,
    key: AnchorKey,
)
    ensures
        resolved_all(tree, keys).keys() == tree.keys(),
        resolved_all(tree, keys).slots(key) == (if keys.contains(key) {
            settled(tree.slots(key))
        } else {
            tree.slots(key)
        }),
    decreases keys.len(),
{
    if keys.len() > 0 {
        let before = resolved_all(tree, keys.drop_last());
        let last = keys.last();
        lemma_resolved_all(tree, keys.drop_last(), key);
        lemma_resolved_all(tree, keys.drop_last(), last);
        lemma_resolved_one(before, last, key);
        lemma_settled_twice(tree.slots(key));
        assert(keys =~= keys.drop_last().push(last));
        assert(keys.contains(key) <==> keys.drop_last().contains(key) || key == last) by {
            if keys.drop_last().contains(key) {
                let i = choose|i: int| 0 <= i < keys.drop_last().len() && keys.drop_last()[i] == key;
                assert(keys[i] == key);
            }
            if key == last {
                assert(keys[keys.len() - 1] == key);
            }
            if keys.contains(key) {
                let i = choose|i: int| 0 <= i < keys.len() && keys[i] == key;
                if i < keys.len() - 1 {
                    assert(keys.drop_last()[i] == key);
                }
            }
        }
    }
}

/// One pass over the anchors a tree exposes reaches the fixed point: the
/// slots of every anchor are settled, and a second pass changes none of them.
pub proof fn lemma_pass_settles<V, T: ResolveAnchors<V>>(tree: T, key: AnchorKey)
    ensures
        resolved_all(tree, tree.keys()).keys() == tree.keys(),
        resolved_all(tree, tree.keys()).slots(key) == settled(tree.slots(key)),
        resolved_all(resolved_all(tree, tree.keys()), tree.keys()).slots(key) == resolved_all(
            tree,
            tree.keys(),
        ).slots(key),
{
    let once = resolved_all(tree, tree.keys());
    tree.lemma_keys(key);
    lemma_resolved_all(tree, tree.keys(), key);
    lemma_resolved_all(once, tree.keys(), key);
    lemma_settled_twice(tree.slots(key));
}

/// After the pass, a slot that held a cell holds the same cell, and a slot
/// that waited holds the first cell that any slot for its anchor held. If
/// none held one, every slot for the anchor still waits.
pub proof fn lemma_pass_binds<V, T: ResolveAnchors<V>>(tree: T, key: AnchorKey, index: int)
    requires
        0 <= index < tree.slots(key).len(),
    ensures
        resolved_all(tree, tree.keys()).slots(key).len() == tree.slots(key).len(),
        resolved_all(tree, tree.keys()).slots(key)[index] == (if tree.slots(key)[index] is Some {
            tree.slots(key)[index]
        } else {
            first_bound(tree.slots(key))
        }),
{
    lemma_pass_settles(tree, key);
    lemma_settled_twice(tree.slots(key));
    lemma_first_bound_none(tree.slots(key));
}

/// Of two siblings that both hold a cell for an anchor, the left one's is
/// the one that the pair reports, before the pass and after it.
pub proof fn lemma_first_declaration_wins<V, A: ResolveAnchors<V>, B: ResolveAnchors<V>>(
    left: A,
    right: B,
    key: AnchorKey,
)
    requires
        first_bound(left.slots(key)) is Some,
    ensures
        first_bound((left, right).slots(key)) == first_bound(left.slots(key)),
        first_bound(resolved_all((left, right), (left, right).keys()).slots(key)) == first_bound(
            left.slots(key),
        ),
{
    lemma_first_bound_concat(left.slots(key), right.slots(key));
    lemma_pass_settles((left, right), key);
    lemma_settled_twice((left, right).slots(key));
}

/// If the left of two siblings holds a cell for an anchor, then after the
/// pass every slot of the right sibling that waited holds that very cell:
/// the same cell that the left sibling's waiting slots hold.
pub proof fn lemma_left_declaration_reaches_right<V, A: ResolveAnchors<V>, B: ResolveAnchors<V>>(
    left: A,
    right: B,
    key: AnchorKey,
)
    requires
        first_bound(left.slots(key)) is Some,
    ensures
        ({
            let cell = first_bound(left.slots(key))->Some_0;
            let after = resolved_all((left, right), (left, right).keys()).slots(key);
            &&& after == bind(left.slots(key), cell) + bind(right.slots(key), cell)
            &&& forall|i: int|
                0 <= i < right.slots(key).len() && right.slots(key)[i] is None ==> #[trigger] after[left.slots(
                    key,
                ).len() + i] == Some(cell)
            &&& forall|i: int|
                0 <= i < left.slots(key).len() && left.slots(key)[i] is None ==> #[trigger] after[i]
                    == Some(cell)
        }),
{
    let cell = first_bound(left.slots(key))->Some_0;
    lemma_first_bound_concat(left.slots(key), right.slots(key));
    lemma_pass_settles((left, right), key);
    lemma_bind_concat(left.slots(key), right.slots(key), cell);
    lemma_bind_fills(left.slots(key), cell);
    lemma_bind_fills(right.slots(key), cell);
}

/// After the pass no anchor has both a slot that holds a cell and a slot
/// that waits: the tree can be built.
pub proof fn lemma_pass_readies<V, T: ResolveAnchors<V>>(tree: T)
    ensures
        resolved_all(tree, tree.keys()).declared().disjoint(
            resolved_all(tree, tree.keys()).waiting(),
        ),
{
    let after = resolved_all(tree, tree.keys());
    assert forall|key: AnchorKey| !(after.declared().contains(key) && after.waiting().contains(
        key,
    )) by {
        after.lemma_slot_states(key);
        lemma_pass_settles(tree, key);
        if let Some(cell) = first_bound(tree.slots(key)) {
            lemma_bind_fills(tree.slots(key), cell);
            lemma_none_waiting(bind(tree.slots(key), cell));
        }
    }
}

/// A build hands the left sibling's cell to the right one: where the left
/// of two slots for one anchor holds a cell and the right one waits, the
/// built pair is that cell twice. A write through one of the two handles
/// goes to the cell that the other reads.
pub proof fn lemma_build_shares_declared_cell<V>(
    left: Anchored<V>,
    right: Anchored<V>,
    built: (Shared<V>, Shared<V>),
)
    requires
        left.key() == right.key(),
        left.cell() is Some,
        right.cell() is None,
        resolved_all((left, right), (left, right).keys()).builds(built),
    ensures
        built.0 == left.cell()->Some_0,
        built.1 == left.cell()->Some_0,
        built.0.address() == built.1.address(),
{
    let key = left.key();
    let cell = left.cell()->Some_0;
    let tree = (left, right);
    let after = resolved_all(tree, tree.keys());
    lemma_pass_settles(tree, key);
    lemma_pass_binds(tree, key, 0);
    lemma_pass_binds(tree, key, 1);
    assert(first_bound(tree.slots(key)) == Some(cell)) by {
        lemma_first_bound_concat(left.slots(key), right.slots(key));
        assert(left.slots(key).first() == Some(cell));
    }
    assert(after.keys()[0] == key && after.keys()[1] == key);
    assert(after.0.key() == key && after.1.key() == key);
    assert(after.slots(key) == after.0.slots(key) + after.1.slots(key));
    assert(after.0.slots(key)[0] == after.slots(key)[0]);
    assert(after.1.slots(key)[0] == after.slots(key)[1]);
}

/// A build lets the first declaration win: where two slots for one anchor
/// each hold a cell and a third waits, the third is built as the first
/// one's cell, and the second keeps its own.
pub proof fn lemma_build_first_declaration_wins<V>(
    first: Anchored<V>,
    second: Anchored<V>,
    consumer: Anchored<V>,
    built: (Shared<V>, Shared<V>, Shared<V>),
)
    requires
        first.key() == second.key(),
        first.key() == consumer.key(),
        first.cell() is Some,
        second.cell() is Some,
        consumer.cell() is None,
        resolved_all((first, second, consumer), (first, second, consumer).keys()).builds(built),
    ensures
        built.0 == first.cell()->Some_0,
        built.1 == second.cell()->Some_0,
        built.2 == first.cell()->Some_0,
{
    let key = first.key();
    let cell = first.cell()->Some_0;
    let tree = (first, second, consumer);
    let after = resolved_all(tree, tree.keys());
    lemma_pass_settles(tree, key);
    lemma_pass_binds(tree, key, 0);
    lemma_pass_binds(tree, key, 1);
    lemma_pass_binds(tree, key, 2);
    assert(first_bound(tree.slots(key)) == Some(cell)) by {
        lemma_first_bound_concat(first.slots(key), second.slots(key));
        lemma_first_bound_concat(first.slots(key) + second.slots(key), consumer.slots(key));
        assert(first.slots(key).first() == Some(cell));
    }
    assert(after.keys()[0] == key && after.keys()[1] == key && after.keys()[2] == key);
    assert(after.0.key() == key && after.1.key() == key && after.2.key() == key);
    assert(after.slots(key) == after.0.slots(key) + after.1.slots(key) + after.2.slots(key));
    assert(after.0.slots(key)[0] == after.slots(key)[0]);
    assert(after.1.slots(key)[0] == after.slots(key)[1]);
    assert(after.2.slots(key)[0] == after.slots(key)[2]);
}

/// Resolves every anchor the tree exposes, in one pass over them. The tree
/// can be built afterwards.
pub fn resolve_anchors<V, T: ResolveAnchors<V>>(tree: &mut T)
    ensures
        *final(tree) == resolved_all(*old(tree), old(tree).keys()),
        final(tree).declared().disjoint(final(tree).waiting()),
{
    let keys = tree.anchors();
    let mut index: usize = 0;
    while index < keys.len()
        invariant
            index <= keys@.len(),
            keys@ == old(tree).keys(),
            *tree == resolved_all(*old(tree), keys@.take(index as int)),
        decreases keys@.len() - index,
    {
        let key = keys[index];
        match tree.get_anchor(key) {
            Some(cell) => {
                tree.resolve_anchor(key, &cell);
            },
            None => {},
        }
        proof {
            assert(keys@.take(index + 1).drop_last() =~= keys@.take(index as int));
        }
        index += 1;
    }
    proof {
        assert(keys@.take(keys@.len() as int) =~= keys@);
        lemma_pass_readies(*old(tree));
    }
}

/// Builds a description: resolves its anchors, then builds every node.
pub fn build_tree<V, T: ResolveAnchors<V>>(tree: T) -> (built: T::Built)
    ensures
        resolved_all(tree, tree.keys()).builds(built),
{
    let mut tree = tree;
    resolve_anchors(&mut tree);
    tree.build_node()
}

/// A description that can be built.
///
/// `V` is the type of the cells that the description's anchors stand for.
pub trait Build<V>: ResolveAnchors<V> {
    /// Builds this description, whatever state its anchors are in: resolves
    /// every anchor it exposes, the first cell found in traversal order
    /// going to every slot that waits for it, and then turns each node into
    /// its built form. There is no way back.
    fn build(self) -> (built: Self::Built)
        ensures
            resolved_all(self, self.keys()).builds(built),
    ;
}

impl<V, T: ResolveAnchors<V>> Build<V> for T {
    fn build(self) -> (built: Self::Built) {
        build_tree(self)
    }
}

} // verus!
