//! The interior-mutability cell: a value guarded by an explicit borrow
//! state.  Shared and exclusive borrows never overlap; an acquisition that
//! would overlap fails with `BorrowConflict` instead.  The state machine is
//! the one a runtime-checked cell implements: `Free`,
//! `SharedBorrowed(n >= 1)`, `ExclusiveBorrowed`.

use vstd::prelude::*;

use crate::MemError;

verus! {

/// The borrow state of a cell.
#[derive(Clone, Copy, Debug, PartialEq, Eq, Structural)]
pub enum BorrowState {
    /// No borrow is outstanding.
    Free,
    /// This many shared (read) borrows are outstanding.
    SharedBorrowed(usize),
    /// One exclusive (write) borrow is outstanding.
    ExclusiveBorrowed,
}

pub struct Cell<T> {
    value: T,
    state: BorrowState,
}

impl<T> Cell<T> {
    /// The guarded value.
    pub closed spec fn value(self) -> T {
        self.value
    }

    /// The current borrow state.
    pub closed spec fn borrow_state(self) -> BorrowState {
        self.state
    }

    /// A shared count is never recorded as zero: `Free` stands for that.
    pub open spec fn wf(self) -> bool {
        self.borrow_state() matches BorrowState::SharedBorrowed(n) ==> n >= 1
    }

    /// Reports the current borrow state.
    pub fn state(&self) -> (r: BorrowState)
        ensures
            r == self.borrow_state(),
    {
        self.state
    }

    /// A fresh cell with no borrow outstanding.
    pub fn new(value: T) -> (c: Cell<T>)
        ensures
            c.wf(),
            c.borrow_state() == BorrowState::Free,
            c.value() == value,
    {
        Cell { value, state: BorrowState::Free }
    }

    /// Requests a shared borrow.  Succeeds from `Free` and on top of other
    /// shared borrows; fails with `BorrowConflict` while an exclusive borrow
    /// is outstanding, leaving the cell unchanged.
    pub fn acquire_shared(&mut self) -> (r: Result<(), MemError>)
        requires
            old(self).wf(),
            old(self).borrow_state() != BorrowState::SharedBorrowed(usize::MAX),
        ensures
            final(self).wf(),
            final(self).value() == old(self).value(),
            old(self).borrow_state() == BorrowState::Free ==> r is Ok && final(self).borrow_state()
                == BorrowState::SharedBorrowed(1),
            old(self).borrow_state() matches BorrowState::SharedBorrowed(n) ==> r is Ok
                && final(self).borrow_state() == BorrowState::SharedBorrowed((n + 1) as usize),
            old(self).borrow_state() == BorrowState::ExclusiveBorrowed ==> r == Err::<
                (),
                MemError,
            >(MemError::BorrowConflict) && *final(self) == *old(self),
    {
        match self.state {
            BorrowState::Free => {
                self.state = BorrowState::SharedBorrowed(1);
                Ok(())
            },
            BorrowState::SharedBorrowed(n) => {
                self.state = BorrowState::SharedBorrowed(n + 1);
                Ok(())
            },
            BorrowState::ExclusiveBorrowed => Err(MemError::BorrowConflict),
        }
    }

    /// Gives one shared borrow back; the last one frees the cell.
    pub fn release_shared(&mut self)
        requires
            old(self).wf(),
            old(self).borrow_state() matches BorrowState::SharedBorrowed(_),
        ensures
            final(self).wf(),
            final(self).value() == old(self).value(),
            old(self).borrow_state() matches BorrowState::SharedBorrowed(n)
                ==> final(self).borrow_state() == (if n == 1 {
                BorrowState::Free
            } else {
                BorrowState::SharedBorrowed((n - 1) as usize)
            }),
    {
        match self.state {
            BorrowState::SharedBorrowed(n) => {
                if n == 1 {
                    self.state = BorrowState::Free;
                } else {
                    self.state = BorrowState::SharedBorrowed(n - 1);
                }
            },
            _ => {},
        }
    }

    /// Requests the exclusive borrow.  Succeeds only from `Free`; while any
    /// borrow is outstanding it fails with `BorrowConflict`, leaving the
    /// cell unchanged.
    pub fn acquire_exclusive(&mut self) -> (r: Result<(), MemError>)
        requires
            old(self).wf(),
        ensures
            final(self).wf(),
            final(self).value() == old(self).value(),
            old(self).borrow_state() == BorrowState::Free ==> r is Ok && final(self).borrow_state()
                == BorrowState::ExclusiveBorrowed,
            old(self).borrow_state() != BorrowState::Free ==> r == Err::<(), MemError>(
                MemError::BorrowConflict,
            ) && *final(self) == *old(self),
    {
        match self.state {
            BorrowState::Free => {
                self.state = BorrowState::ExclusiveBorrowed;
                Ok(())
            },
            _ => Err(MemError::BorrowConflict),
        }
    }

    /// Gives the exclusive borrow back.
    pub fn release_exclusive(&mut self)
        requires
            old(self).wf(),
            old(self).borrow_state() == BorrowState::ExclusiveBorrowed,
        ensures
            final(self).wf(),
            final(self).value() == old(self).value(),
            final(self).borrow_state() == BorrowState::Free,
    {
        self.state = BorrowState::Free;
    }

    /// Reads through an outstanding borrow of either kind.
    pub fn borrow(&self) -> (r: &T)
        requires
            self.borrow_state() != BorrowState::Free,
        ensures
            *r == self.value(),
    {
        &self.value
    }

    /// Writes through the outstanding exclusive borrow.
    pub fn write(&mut self, value: T)
        requires
            old(self).wf(),
            old(self).borrow_state() == BorrowState::ExclusiveBorrowed,
        ensures
            final(self).wf(),
            final(self).value() == value,
            final(self).borrow_state() == old(self).borrow_state(),
    {
        self.value = value;
    }

    /// Swaps the guarded value through the outstanding exclusive borrow and
    /// hands the previous one out.
    pub fn replace(&mut self, value: T) -> (r: T)
        requires
            old(self).wf(),
            old(self).borrow_state() == BorrowState::ExclusiveBorrowed,
        ensures
            final(self).wf(),
            r == old(self).value(),
            final(self).value() == value,
            final(self).borrow_state() == old(self).borrow_state(),
    {
        let mut v = value;
        core::mem::swap(&mut self.value, &mut v);
        v
    }

    /// Consumes the cell and hands the guarded value out.
    pub fn into_inner(self) -> (r: T)
        ensures
            r == self.value(),
    {
        self.value
    }
}

impl<T: Copy> Cell<T> {
    /// Crate-internal unguarded read, for an owner about to tear the cell
    /// down; the borrow discipline guards clients, not the destructor.
    pub(crate) fn peek(&self) -> (r: T)
        ensures
            r == self.value(),
    {
        self.value
    }

    /// Reads the value through an outstanding borrow of either kind.
    pub fn read(&self) -> (r: T)
        requires
            self.borrow_state() != BorrowState::Free,
        ensures
            r == self.value(),
    {
        self.value
    }
}

} // verus!
