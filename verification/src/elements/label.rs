//! A label: a strip whose width is derived from the text it stands for.

use vstd::prelude::*;
use std::hash::BuildHasher;
use std::hash::BuildHasherDefault;
use std::hash::DefaultHasher;
use crate::anchors::AnchorKey;
use crate::anchors::ResolveAnchors;
use crate::build_pass::BuildNode;
use crate::drawer::Color;
use crate::drawer::DrawOp;
use crate::drawer::DrawPass;
use crate::element::DrawResult;
use crate::element::Element;
use crate::elements::rect::fills;
use crate::elements::rect::rect;
use crate::event::Event;
use crate::event::EventResult;
use crate::event::HandleEvent;
use crate::event::InvalidateCache;
use crate::location::Axis;
use crate::location::Extent;
use crate::location::Location;
use crate::shared::Addr;
use crate::shared::Shared;
use crate::values::ValueSource;

verus! {

/// The hash that the standard library's default hasher gives a text.
pub uninterp spec fn text_hash(text: Seq<char>) -> u64;

/// Hashes `text` with `BuildHasher::hash_one` of a default-built
/// `DefaultHasher`. That hasher is keyed with constants, so the result
/// depends on the text alone; which number it is, is not stated.
#[verifier::external_body]
fn hash_text(text: &str) -> (hash: u64)
    ensures
        hash == text_hash(text@),
{
    BuildHasherDefault::<DefaultHasher>::default().hash_one(text)
}

/// Into how many equal columns a label's region is divided, at most.
pub const LABEL_COLUMNS: u64 = 16;

/// The colour of a label's strip: white, half opaque.
pub open spec fn label_tint() -> Color {
    Color { red: 255, green: 255, blue: 255, alpha: 128 }
}

/// Computes [`label_tint`].
pub fn tint() -> (color: Color)
    ensures
        color == label_tint(),
{
    Color::new_rgba(255, 255, 255, 128)
}

/// The strip of a label whose text hashes to `hash`.
///
/// The hash picks a number of columns below [`LABEL_COLUMNS`]. The region is
/// divided into that many columns, and the strip is the region without its
/// first and last column. With fewer than two columns the padding leaves
/// nothing, and there is no strip; with exactly two the strip is empty.
pub open spec fn strip_of(hash: u64, within: Extent) -> Option<Extent> {
    let columns = hash % LABEL_COLUMNS;
    if columns < 2 {
        None
    } else {
        Some(within.span(Axis::Horizontal, 1, columns - 1, columns as int))
    }
}

/// Computes [`strip_of`].
pub fn label_strip(hash: u64, within: Location) -> (strip: Option<Location>)
    ensures
        strip is Some <==> strip_of(hash, within@) is Some,
        strip matches Some(s) ==> Some(s@) == strip_of(hash, within@),
{
    let columns: u64 = hash % LABEL_COLUMNS;
    if columns < 2 {
        None
    } else {
        Some(within.span(Axis::Horizontal, 1, (columns - 1) as u128, columns as u128))
    }
}

/// What a label draws for a text with the given hash: its strip, filled
/// with the label tint, or nothing where there is no strip.
pub open spec fn label_draws(hash: u64, within: Extent, ops: Seq<DrawOp>) -> bool {
    match strip_of(hash, within) {
        Some(strip) => fills(ops, strip, label_tint()),
        None => ops.len() == 0,
    }
}

/// Draws what a label draws for a text with the given hash.
pub fn draw_label<R>(hash: u64, pass: &mut DrawPass, resources: &R, location: Location)
    ensures
        crate::drawer::extends(old(pass)@, final(pass)@),
        label_draws(hash, location@, crate::drawer::gained(old(pass)@, final(pass)@)),
{
    match label_strip(hash, location) {
        Some(strip) => {
            let done = rect(tint()).draw(pass, resources, strip);
            assert(done is Ok);
        },
        None => {
            assert(pass@.take(pass@.len() as int) =~= pass@);
        },
    }
}

/// An element that shows a text taken from a value source.
pub struct Label<Src>(pub Src);

/// A label for the text that `source` gives.
pub fn label<Src: BuildNode>(source: Src) -> (element: Label<Src>) where
    Src::Built: ValueSource<Value = String>,

    ensures
        element.0 == source,
{
    Label(source)
}

impl<Src> HandleEvent for Label<Src> {
    /// A label takes no part in events: it stays as it is and reports success.
    open spec fn handles(self, event: Event, after: Self, result: EventResult) -> bool {
        after == self && result is Ok
    }

    fn handle_event(&mut self, event: &Event) -> (result: EventResult) {
        Ok(())
    }
}

impl<R, Src: ValueSource<Value = String>> Element<R> for Label<Src> {
    /// A label draws what [`label_draws`] says for the hash of some text
    /// that its source may give.
    open spec fn draws(&self, resources: &R, location: Extent, ops: Seq<DrawOp>) -> bool {
        exists|text: String| #[trigger]
            self.0.yields(text) && label_draws(text_hash(text@), location, ops)
    }

    /// A label can be drawn whenever its text can be read.
    open spec fn steady(&self) -> bool {
        self.0.steady()
    }

    fn draw(&self, pass: &mut DrawPass, resources: &R, location: Location) -> (outcome:
        DrawResult) {
        match self.0.value() {
            Ok(text) => {
                let hash = hash_text(text.as_str());
                draw_label(hash, pass, resources, location);
                assert(self.0.yields(text));
                Ok(())
            },
            Err(error) => Err(error),
        }
    }
}

impl<Src: InvalidateCache> InvalidateCache for Label<Src> {
    /// A label depends on what its source depends on.
    open spec fn invalidates(&self, addr: Addr, dropped: bool) -> bool {
        self.0.invalidates(addr, dropped)
    }

    fn invalidate_cache(&self, addr: Addr) -> (dropped: bool) {
        self.0.invalidate_cache(addr)
    }
}

impl<Src: BuildNode> BuildNode for Label<Src> {
    type Built = Label<Src::Built>;

    open spec fn declared(&self) -> Set<AnchorKey> {
        self.0.declared()
    }

    open spec fn waiting(&self) -> Set<AnchorKey> {
        self.0.waiting()
    }

    open spec fn builds(self, built: Label<Src::Built>) -> bool {
        self.0.builds(built.0)
    }

    fn build_node(self) -> (built: Label<Src::Built>) {
        Label(self.0.build_node())
    }
}

impl<V, Src: ResolveAnchors<V>> ResolveAnchors<V> for Label<Src> {
    open spec fn keys(&self) -> Seq<AnchorKey> {
        self.0.keys()
    }

    open spec fn slots(&self, key: AnchorKey) -> Seq<Option<Shared<V>>> {
        self.0.slots(key)
    }

    open spec fn resolved(self, key: AnchorKey, cell: Shared<V>) -> Self {
        Label(self.0.resolved(key, cell))
    }

    proof fn lemma_keys(&self, key: AnchorKey) {
        self.0.lemma_keys(key);
    }

    proof fn lemma_slot_states(&self, key: AnchorKey) {
        self.0.lemma_slot_states(key);
    }

    proof fn lemma_resolved(self, key: AnchorKey, cell: Shared<V>, other: AnchorKey) {
        self.0.lemma_resolved(key, cell, other);
    }

    fn anchors(&self) -> (keys: Vec<AnchorKey>) {
        self.0.anchors()
    }

    fn get_anchor(&self, key: AnchorKey) -> (found: Option<Shared<V>>) {
        self.0.get_anchor(key)
    }

    fn resolve_anchor(&mut self, key: AnchorKey, cell: &Shared<V>) {
        self.0.resolve_anchor(key, cell);
    }
}

} // verus!
