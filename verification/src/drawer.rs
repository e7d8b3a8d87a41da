//! The record of what a tree asked to be drawn.
//!
//! Elements do not touch a backend. They append draw operations to a pass,
//! in painting order; whoever owns the backend replays the pass afterwards.

use vstd::prelude::*;
use crate::location::Location;

verus! {

/// A colour with an opacity, each channel from 0 to 255.
#[derive(Clone, Copy, Debug, PartialEq, Eq, Structural)]
pub struct Color {
    pub red: u8,
    pub green: u8,
    pub blue: u8,
    pub alpha: u8,
}

impl Color {
    /// The colour with the given channels.
    pub fn new_rgba(red: u8, green: u8, blue: u8, alpha: u8) -> (color: Color)
        ensures
            color == (Color { red, green, blue, alpha }),
    {
        Color { red, green, blue, alpha }
    }
}

/// One filled rectangle to paint.
#[derive(Clone, Copy, Debug, PartialEq, Eq, Structural)]
pub struct DrawOp {
    pub location: Location,
    pub color: Color,
}

/// The operations recorded so far, oldest first. Later operations paint over
/// earlier ones.
pub struct DrawPass {
    ops: Vec<DrawOp>,
}

impl View for DrawPass {
    type V = Seq<DrawOp>;

    closed spec fn view(&self) -> Seq<DrawOp> {
        self.ops@
    }
}

impl DrawPass {
    /// A pass with nothing recorded.
    pub fn new() -> (pass: DrawPass)
        ensures
            pass@ == Seq::<DrawOp>::empty(),
    {
        DrawPass { ops: Vec::new() }
    }

    /// Appends one operation.
    pub fn record(&mut self, op: DrawOp)
        ensures
            final(self)@ == old(self)@.push(op),
    {
        self.ops.push(op);
    }

    /// Forgets every operation after the first `len`. A pass that holds no
    /// more than `len` operations stays as it is.
    pub fn rewind(&mut self, len: usize)
        ensures
            final(self)@ == (if len <= old(self)@.len() {
                old(self)@.take(len as int)
            } else {
                old(self)@
            }),
    {
        self.ops.truncate(len);
    }

    /// How many operations are recorded.
    pub fn len(&self) -> (len: usize)
        ensures
            len == self@.len(),
    {
        self.ops.len()
    }

    /// The operation at `index` in painting order, if there is one.
    pub fn get(&self, index: usize) -> (op: Option<DrawOp>)
        ensures
            op == (if index < self@.len() {
                Some(self@[index as int])
            } else {
                None
            }),
    {
        if index < self.ops.len() {
            Some(self.ops[index])
        } else {
            None
        }
    }

    /// Every recorded operation, in painting order.
    pub fn ops(&self) -> (ops: &Vec<DrawOp>)
        ensures
            ops@ == self@,
    {
        &self.ops
    }
}

/// What a pass gained between two moments: everything after the first
/// `before.len()` operations.
pub open spec fn gained(before: Seq<DrawOp>, after: Seq<DrawOp>) -> Seq<DrawOp> {
    after.skip(before.len() as int)
}

/// Whether `after` only adds to `before`.
pub open spec fn extends(before: Seq<DrawOp>, after: Seq<DrawOp>) -> bool {
    before.len() <= after.len() && after.take(before.len() as int) == before
}

/// Gains compose: what two steps in a row added is what the first added,
/// followed by what the second added.
pub proof fn lemma_gained_twice(before: Seq<DrawOp>, middle: Seq<DrawOp>, after: Seq<DrawOp>)
    requires
        extends(before, middle),
        extends(middle, after),
    ensures
        extends(before, after),
        gained(before, after) == gained(before, middle) + gained(middle, after),
        gained(before, after).take(middle.len() - before.len()) == gained(before, middle),
        gained(before, after).skip(middle.len() - before.len()) == gained(middle, after),
{
    let all = gained(before, after);
    let cut = middle.len() - before.len();
    assert(after.take(before.len() as int) =~= after.take(middle.len() as int).take(
        before.len() as int,
    ));
    assert(all.take(cut) =~= gained(before, middle)) by {
        assert forall|i: int| 0 <= i < cut implies all.take(cut)[i] == gained(before, middle)[i] by {
            assert(after.take(middle.len() as int)[before.len() + i] == middle[before.len() + i]);
        }
    }
    assert(all.skip(cut) =~= gained(middle, after));
    assert(all =~= all.take(cut) + all.skip(cut));
}

} // verus!
