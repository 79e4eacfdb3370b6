//! The owned handle: exactly one live handle wraps one heap-resident value
//! until it is destroyed or converted to a raw address.  `into_raw` and
//! `from_raw` mirror the buffer's escape hatch; `manual_destroy` tears the
//! value down in place when the bookkeeping was bypassed.  Because the
//! handle cannot be cloned and every destroying operation requires the
//! block to still be live, a double destruction cannot be verified.

use vstd::prelude::*;

use crate::heap::{Allocation, Heap};
use crate::MemError;

verus! {

/// Mathematical description of a handle: the address of its one-element
/// block and the layout of the wrapped value's type.
pub struct HandleModel {
    pub address: usize,
    pub element_size: usize,
    pub element_align: usize,
}

pub struct Handle<T> {
    address: usize,
    element_size: usize,
    element_align: usize,
    elem: core::marker::PhantomData<T>,
}

impl<T> View for Handle<T> {
    type V = HandleModel;

    closed spec fn view(&self) -> HandleModel {
        HandleModel {
            address: self.address,
            element_size: self.element_size,
            element_align: self.element_align,
        }
    }
}

impl<T> Handle<T> {
    /// The handle's invariant against the heap: it denotes a live
    /// one-element block of matching layout whose slot is initialized.
    pub open spec fn wf(self, h: Heap<T>) -> bool {
        &&& h.is_live(self@.address)
        &&& h.block(self@.address).element_size == self@.element_size
        &&& h.block(self@.address).element_align == self@.element_align
        &&& h.block(self@.address).elems.len() == 1
        &&& h.block(self@.address).elems[0] is Some
    }

    /// The wrapped value.
    pub open spec fn value(self, h: Heap<T>) -> T {
        h.block(self@.address).elems[0].unwrap()
    }

    pub fn address(&self) -> (r: usize)
        ensures
            r == self@.address,
    {
        self.address
    }

    /// Creates a handle by allocating one slot of the given layout and
    /// moving `value` in.  Fails exactly when the heap cannot supply the
    /// slot; the heap is then unchanged.
    pub fn create(
        h: &mut Heap<T>,
        value: T,
        element_size: usize,
        element_align: usize,
    ) -> (r: Result<Handle<T>, MemError>)
        requires
            old(h).wf(),
        ensures
            final(h).wf(),
            final(h)@.budget == old(h)@.budget,
            r is Ok <==> element_size <= old(h)@.available,
            match r {
                Ok(hd) => {
                    &&& hd.wf(*final(h))
                    &&& hd.value(*final(h)) == value
                    &&& hd@.element_size == element_size
                    &&& hd@.element_align == element_align
                    &&& hd@.address == old(h)@.blocks.len() + 1
                    &&& !old(h).is_valid_address(hd@.address)
                    &&& final(h)@.available == old(h)@.available - element_size
                    &&& forall|a: usize|
                        old(h).is_valid_address(a) ==> final(h).block(a) == old(h).block(a)
                    &&& forall|a: usize|
                        old(h).is_valid_address(a) ==> final(h).is_valid_address(a)
                },
                Err(e) => {
                    &&& *final(h) == *old(h)
                    &&& e == MemError::AllocationFailed
                },
            },
    {
        let ghost prev = *old(h);
        proof {
            assert(element_size * 1 == element_size) by (nonlinear_arith);
        }
        match h.allocate(element_size, element_align, 1) {
            Err(e) => {
                proof {
                    assert(e == MemError::AllocationFailed);
                }
                Err(e)
            },
            Ok(a) => {
                h.write_at(&a, 0, value);
                let address = a.address();
                let hd = Handle {
                    address,
                    element_size,
                    element_align,
                    elem: core::marker::PhantomData,
                };
                proof {
                    assert(forall|x: usize|
                        prev.is_valid_address(x) ==> h.block(x) == prev.block(x));
                }
                Ok(hd)
            },
        }
    }

    /// Releases the ownership bookkeeping without destroying the value and
    /// hands out the raw address.  The caller is now responsible for exactly
    /// one later `from_raw` or `manual_destroy` of that address.
    pub fn into_raw(self) -> (r: usize)
        ensures
            r == self@.address,
    {
        self.address
    }

    /// Reclaims ownership of an address produced by a matching `create` and
    /// `into_raw` of the same value layout.  As with the buffer's raw
    /// round-trip, the origin of the address is a precondition, discharged
    /// by proof rather than checked at run time.
    pub fn from_raw(h: &Heap<T>, address: usize, element_size: usize, element_align: usize) -> (r:
        Handle<T>)
        requires
            h.is_live(address),
            h.block(address).element_size == element_size,
            h.block(address).element_align == element_align,
            h.block(address).elems.len() == 1,
            h.block(address).elems[0] is Some,
        ensures
            r@ == (HandleModel { address, element_size, element_align }),
            r.wf(*h),
    {
        Handle { address, element_size, element_align, elem: core::marker::PhantomData }
    }

    /// Runs the value's teardown in place and releases the backing block,
    /// without going through a handle value.  Used after `into_raw` has
    /// bypassed the bookkeeping; the block must still be live, so the same
    /// address can never be destroyed twice.
    pub fn manual_destroy(h: &mut Heap<T>, address: usize)
        requires
            old(h).wf(),
            old(h).is_live(address),
            old(h).block(address).elems.len() == 1,
        ensures
            final(h).wf(),
            final(h)@.budget == old(h)@.budget,
            !final(h).is_live(address),
            final(h)@.available == old(h)@.available + old(h).block(address).element_size,
            forall|a: usize|
                old(h).is_valid_address(a) && a != address ==> final(h).block(a) == old(h).block(
                    a,
                ),
            forall|a: usize| old(h).is_valid_address(a) ==> final(h).is_valid_address(a),
    {
        let element_size = h.block_element_size(address);
        let element_align = h.block_element_align(address);
        let a = Allocation::assemble(address, element_size, element_align, 1);
        proof {
            assert(1 * element_size == element_size) by (nonlinear_arith);
        }
        h.release(a);
    }

    /// Destroys the handle: tears the value down and releases its block.
    pub fn destroy(self, h: &mut Heap<T>)
        requires
            old(h).wf(),
            self.wf(*old(h)),
        ensures
            final(h).wf(),
            final(h)@.budget == old(h)@.budget,
            !final(h).is_live(self@.address),
            final(h)@.available == old(h)@.available + self@.element_size,
            forall|a: usize|
                old(h).is_valid_address(a) && a != self@.address ==> final(h).block(a) == old(
                    h,
                ).block(a),
            forall|a: usize| old(h).is_valid_address(a) ==> final(h).is_valid_address(a),
    {
        let address = self.into_raw();
        Handle::<T>::manual_destroy(h, address);
    }
}

impl<T: Copy> Handle<T> {
    /// Reads the wrapped value.
    pub fn read(&self, h: &Heap<T>) -> (r: T)
        requires
            h.wf(),
            self.wf(*h),
        ensures
            r == self.value(*h),
    {
        let a = Allocation::assemble(self.address, self.element_size, self.element_align, 1);
        h.read_at(&a, 0)
    }
}

} // verus!
