//! What every built node can be asked to do.

use vstd::prelude::*;
use crate::drawer::DrawOp;
use crate::drawer::DrawPass;
use crate::drawer::extends;
use crate::drawer::gained;
use crate::location::Extent;
use crate::location::Location;
use crate::shared::LockError;

verus! {

/// The outcome of drawing: done, or the lock that could not be had.
pub type DrawResult = Result<(), LockError>;

/// A node that can be drawn into a region.
///
/// `R` is the bundle of outside resources handed through every draw call;
/// the tree only passes it on.
pub trait Element<R> {
    /// Whether drawing this element into `location` may record exactly `ops`.
    ///
    /// This is a relation, not a function: an element whose look depends on
    /// a shared cell draws what the cell holds at that moment.
    spec fn draws(&self, resources: &R, location: Extent, ops: Seq<DrawOp>) -> bool;

    /// Whether drawing always succeeds: so it is for an element that reads
    /// no shared cell.
    spec fn steady(&self) -> bool;

    /// Draws the element into `location`: appends to `pass`, and leaves what
    /// was recorded before untouched.
    ///
    /// Drawing fails when a value that the element looks at cannot be read.
    /// The pass is then as it was before the call.
    fn draw(&self, pass: &mut DrawPass, resources: &R, location: Location) -> (outcome: DrawResult)
        ensures
            outcome is Ok ==> extends(old(pass)@, final(pass)@),
            outcome is Ok ==> self.draws(resources, location@, gained(old(pass)@, final(pass)@)),
            outcome is Err ==> final(pass)@ == old(pass)@,
            self.steady() ==> outcome is Ok,
    ;
}

} // verus!
