//! Where the values that a tree looks at come from.
//!
//! An element is written against [`ValueSource`] and does not know whether
//! the value is a constant, is computed on every read, or lives in a shared
//! cell.

use vstd::prelude::*;
use core::marker::PhantomData;
use crate::elements::split::SplitType;
use crate::event::InvalidateCache;
use crate::shared::Addr;
use crate::shared::LockError;
use crate::shared::Shared;

verus! {

/// Something that can be read for a value.
pub trait ValueSource {
    type Value;

    /// Whether a read may give `value`.
    spec fn yields(&self, value: Self::Value) -> bool;

    /// Whether every read gives a value. A source that reads a shared cell
    /// is not steady: the cell's lock may be out of reach.
    spec fn steady(&self) -> bool;

    /// Reads the current value. Nothing is remembered between reads.
    fn value(&self) -> (read: Result<Self::Value, LockError>)
        ensures
            read matches Ok(value) ==> self.yields(value),
            self.steady() ==> read is Ok,
    ;
}

/// Marks a plain value that is its own constant source.
pub trait AutoValueSource: Copy {

}

impl AutoValueSource for SplitType {

}

impl<T: AutoValueSource> ValueSource for T {
    type Value = T;

    open spec fn yields(&self, value: T) -> bool {
        value == *self
    }

    open spec fn steady(&self) -> bool {
        true
    }

    fn value(&self) -> (read: Result<T, LockError>) {
        Ok(*self)
    }
}

impl<T: AutoValueSource> InvalidateCache for T {
    open spec fn invalidates(&self, addr: Addr, dropped: bool) -> bool {
        !dropped
    }

    fn invalidate_cache(&self, addr: Addr) -> (dropped: bool) {
        false
    }
}

impl ValueSource for String {
    type Value = String;

    open spec fn yields(&self, value: String) -> bool {
        value == *self
    }

    open spec fn steady(&self) -> bool {
        true
    }

    fn value(&self) -> (read: Result<String, LockError>) {
        Ok(self.clone())
    }
}

impl InvalidateCache for String {
    open spec fn invalidates(&self, addr: Addr, dropped: bool) -> bool {
        !dropped
    }

    fn invalidate_cache(&self, addr: Addr) -> (dropped: bool) {
        false
    }
}

/// A value that is computed anew on every read.
#[verifier::reject_recursive_types(V)]
#[verifier::reject_recursive_types(F)]
pub struct Computed<V, F: Fn() -> V> {
    compute: F,
    produces: PhantomData<V>,
}

impl<V, F: Fn() -> V> Computed<V, F> {
    #[verifier::type_invariant]
    pub closed spec fn callable(self) -> bool {
        call_requires(self.compute, ())
    }

    /// Whether the computation may return `value`.
    pub closed spec fn computes(&self, value: V) -> bool {
        call_ensures(self.compute, (), value)
    }
}

/// The source that runs `compute` on every read.
pub fn computed<V, F: Fn() -> V>(compute: F) -> (source: Computed<V, F>)
    requires
        call_requires(compute, ()),
    ensures
        forall|value: V| source.computes(value) == call_ensures(compute, (), value),
{
    Computed { compute, produces: PhantomData }
}

impl<V, F: Fn() -> V> ValueSource for Computed<V, F> {
    type Value = V;

    open spec fn yields(&self, value: V) -> bool {
        self.computes(value)
    }

    open spec fn steady(&self) -> bool {
        true
    }

    fn value(&self) -> (read: Result<V, LockError>) {
        proof {
            use_type_invariant(self);
        }
        Ok((self.compute)())
    }
}

impl<V, F: Fn() -> V> InvalidateCache for Computed<V, F> {
    open spec fn invalidates(&self, addr: Addr, dropped: bool) -> bool {
        !dropped
    }

    fn invalidate_cache(&self, addr: Addr) -> (dropped: bool) {
        false
    }
}

impl<V: Clone> ValueSource for Shared<V> {
    type Value = V;

    /// A cell may hold anything that was written through any handle to it,
    /// so a read may give any value. Whoever reads decides what to do with
    /// each of them.
    open spec fn yields(&self, value: V) -> bool {
        true
    }

    /// Whether the cell's lock can be had is not in the hands of the reader.
    open spec fn steady(&self) -> bool {
        false
    }

    /// Takes the read lock of this handle's cell for the length of the
    /// read, and copies the contents out. A lock that cannot be had is
    /// reported as it is.
    fn value(&self) -> (read: Result<V, LockError>) {
        match self.read() {
            Ok(guard) => Ok(guard.get().clone()),
            Err(error) => Err(error),
        }
    }
}

impl<V> InvalidateCache for Shared<V> {
    /// A handle to a cell depends on that cell and on no other.
    open spec fn invalidates(&self, addr: Addr, dropped: bool) -> bool {
        dropped == (self.address() == addr)
    }

    fn invalidate_cache(&self, addr: Addr) -> (dropped: bool) {
        self.addr() == addr
    }
}

} // verus!
