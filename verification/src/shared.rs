//! Shared cells: reference-counted, lock-protected mutable values.
//!
//! A cell is reachable through any number of handles. Readers may coexist;
//! a writer excludes every other access for as long as its guard lives.
//! What a cell holds at a given moment depends on every handle to it, so the
//! contracts here speak of a guard's contents only while the guard is held.
//!
//! Taking a lock never waits and never stops the program. A lock that cannot
//! be had is reported as a [`LockError`]; whoever runs the tree decides
//! whether to try again, and treats a poisoned lock as the fatal fault it is.

use vstd::prelude::*;
use std::sync::Arc;
use std::sync::RwLock;
use std::sync::RwLockReadGuard;
use std::sync::RwLockWriteGuard;
use std::sync::TryLockError;

verus! {

/// `std::sync::RwLock`, opaque to the verifier.
#[verifier::external_type_specification]
#[verifier::external_body]
#[verifier::reject_recursive_types(T)]
pub struct ExRwLock<T: ?Sized>(RwLock<T>);

/// `std::sync::RwLockReadGuard`, opaque to the verifier.
#[verifier::external_type_specification]
#[verifier::external_body]
#[verifier::reject_recursive_types(T)]
pub struct ExRwLockReadGuard<'a, T: ?Sized>(RwLockReadGuard<'a, T>);

/// `std::sync::RwLockWriteGuard`, opaque to the verifier.
#[verifier::external_type_specification]
#[verifier::external_body]
#[verifier::reject_recursive_types(T)]
pub struct ExRwLockWriteGuard<'a, T: ?Sized + 'a>(RwLockWriteGuard<'a, T>);

/// `RwLock::new` makes a lock around the value; nothing is claimed of the lock.
pub assume_specification<T>[ RwLock::<T>::new ](value: T) -> (lock: RwLock<T>)
;

/// Why a lock could not be taken.
#[derive(Clone, Copy, Debug, PartialEq, Eq, Structural)]
pub enum LockError {
    /// A holder of the write lock failed while it held it: what the cell
    /// holds may be half-written. This does not heal.
    Poisoned,
    /// A guard that excludes this access is alive right now.
    Busy,
}

/// Where a cell lives: equal for handles to one cell, and distinct for cells
/// that are alive at the same time.
#[derive(Clone, Copy, Debug, PartialEq, Eq, Hash, Structural)]
pub struct Addr(pub(crate) usize);

/// A handle to a shared cell.
///
/// Cloning a handle shares the cell; the cell lives as long as its last handle.
#[verifier::reject_recursive_types(T)]
pub struct Shared<T> {
    cell: Arc<RwLock<T>>,
    addr: Addr,
    initial: Ghost<T>,
}

/// Scoped read access to a cell. The read lock is released when the guard is dropped.
#[verifier::reject_recursive_types(T)]
pub struct SharedReadGuard<'a, T> {
    guard: RwLockReadGuard<'a, T>,
    held: Ghost<T>,
    of: Ghost<Addr>,
}

/// Scoped exclusive access to a cell. The write lock is released when the guard is dropped.
#[verifier::reject_recursive_types(T)]
pub struct SharedWriteGuard<'a, T> {
    guard: RwLockWriteGuard<'a, T>,
    held: Ghost<T>,
    of: Ghost<Addr>,
}

/// Calls `Arc::as_ptr` and gives the pointer's address. An address says
/// nothing of the value, so nothing is claimed of the result.
#[verifier::external_body]
fn cell_addr<T>(cell: &Arc<RwLock<T>>) -> (addr: Addr) {
    Addr(Arc::as_ptr(cell) as usize)
}

/// Calls `Arc::clone`: the result points to the same lock as `cell`.
#[verifier::external_body]
fn cell_clone<T>(cell: &Arc<RwLock<T>>) -> (copy: Arc<RwLock<T>>)
    ensures
        copy == *cell,
{
    Arc::clone(cell)
}

impl<T> Shared<T> {
    /// The value the cell was created with.
    pub closed spec fn initial(&self) -> T {
        self.initial@
    }

    /// The address of the cell.
    pub closed spec fn address(&self) -> Addr {
        self.addr
    }

    /// A new cell that holds `value`, and the first handle to it.
    pub fn new(value: T) -> (shared: Self)
        ensures
            shared.initial() == value,
    {
        let ghost initial = value;
        let cell = Arc::new(RwLock::new(value));
        let addr = cell_addr(&cell);
        Shared { cell, addr, initial: Ghost(initial) }
    }

    /// The address of the cell, the same through every handle to it.
    pub fn addr(&self) -> (addr: Addr)
        ensures
            addr == self.address(),
    {
        self.addr
    }

    /// Asks for the read lock with `RwLock::try_read`, which does not wait.
    /// A guard that comes back borrows the lock it was taken on, which is
    /// this handle's. What the cell holds then is whatever was last written
    /// through any handle, so nothing is claimed of the guard's contents, and
    /// whether the lock can be had depends on the other guards alive, so
    /// nothing is claimed of that either. The two errors of std are handed
    /// on one for one.
    #[verifier::external_body]
    fn lock_read(&self) -> (taken: Result<SharedReadGuard<'_, T>, LockError>)
        ensures
            taken matches Ok(guard) ==> guard.cell() == self.address(),
    {
        match self.cell.try_read() {
            Ok(guard) => Ok(
                SharedReadGuard { guard, held: Ghost(arbitrary()), of: Ghost(self.addr) },
            ),
            Err(TryLockError::Poisoned(_)) => Err(LockError::Poisoned),
            Err(TryLockError::WouldBlock) => Err(LockError::Busy),
        }
    }

    /// Asks for the write lock with `RwLock::try_write`, which does not
    /// wait. A guard that comes back borrows the lock it was taken on, which
    /// is this handle's. Nothing is claimed of what the cell holds then, nor
    /// of whether the lock can be had. The two errors of std are handed on
    /// one for one.
    #[verifier::external_body]
    fn lock_write(&self) -> (taken: Result<SharedWriteGuard<'_, T>, LockError>)
        ensures
            taken matches Ok(guard) ==> guard.cell() == self.address(),
    {
        match self.cell.try_write() {
            Ok(guard) => Ok(
                SharedWriteGuard { guard, held: Ghost(arbitrary()), of: Ghost(self.addr) },
            ),
            Err(TryLockError::Poisoned(_)) => Err(LockError::Poisoned),
            Err(TryLockError::WouldBlock) => Err(LockError::Busy),
        }
    }

    /// Scoped read access to this handle's cell: any number of readers may
    /// hold a guard at once. What the guard shows is whatever the cell holds
    /// when the lock is taken.
    ///
    /// The access is refused while a writer holds the cell, and for good
    /// once the lock is poisoned.
    pub fn read(&self) -> (taken: Result<SharedReadGuard<'_, T>, LockError>)
        ensures
            taken matches Ok(guard) ==> guard.cell() == self.address(),
    {
        self.lock_read()
    }

    /// Scoped exclusive access to this handle's cell: no other guard of
    /// the cell exists while this one lives. What the guard shows at first
    /// is whatever the cell holds when the lock is taken.
    ///
    /// The access is refused while any other guard of the cell is alive,
    /// and for good once the lock is poisoned.
    pub fn write(&self) -> (taken: Result<SharedWriteGuard<'_, T>, LockError>)
        ensures
            taken matches Ok(guard) ==> guard.cell() == self.address(),
    {
        self.lock_write()
    }
}

impl<T> Clone for Shared<T> {
    /// Another handle to the same cell; the value is not copied.
    fn clone(&self) -> (copy: Self)
        ensures
            copy == *self,
    {
        Shared { cell: cell_clone(&self.cell), addr: self.addr, initial: self.initial }
    }
}

impl<'a, T> View for SharedReadGuard<'a, T> {
    type V = T;

    /// What the cell holds while this guard is held.
    closed spec fn view(&self) -> T {
        self.held@
    }
}

impl<'a, T> SharedReadGuard<'a, T> {
    /// The address of the cell whose lock this guard holds.
    pub closed spec fn cell(&self) -> Addr {
        self.of@
    }

    /// Dereferences the `RwLockReadGuard`. No writer can run while the guard
    /// is held, so every call gives the same contents.
    #[verifier::external_body]
    fn peek(&self) -> (value: &T)
        ensures
            *value == self@,
    {
        &*self.guard
    }

    /// The cell's contents.
    pub fn get(&self) -> (value: &T)
        ensures
            *value == self@,
    {
        self.peek()
    }
}

impl<'a, T> View for SharedWriteGuard<'a, T> {
    type V = T;

    /// What the cell holds at this point of the guard's life.
    closed spec fn view(&self) -> T {
        self.held@
    }
}

impl<'a, T> SharedWriteGuard<'a, T> {
    /// The address of the cell whose lock this guard holds.
    pub closed spec fn cell(&self) -> Addr {
        self.of@
    }

    /// Dereferences the `RwLockWriteGuard`. Nothing else can reach the cell
    /// while the guard is held, so the contents are what was last stored
    /// through it.
    #[verifier::external_body]
    fn peek(&self) -> (value: &T)
        ensures
            *value == self@,
    {
        &*self.guard
    }

    /// Assigns through the `RwLockWriteGuard`: the cell then holds `value`,
    /// and the guard is still the guard of the same cell.
    #[verifier::external_body]
    fn store(&mut self, value: T)
        ensures
            final(self)@ == value,
            final(self).cell() == old(self).cell(),
    {
        *self.guard = value;
    }

    /// The cell's contents.
    pub fn get(&self) -> (value: &T)
        ensures
            *value == self@,
    {
        self.peek()
    }

    /// Replaces the cell's contents.
    pub fn set(&mut self, value: T)
        ensures
            final(self)@ == value,
            final(self).cell() == old(self).cell(),
    {
        self.store(value)
    }
}

} // verus!
