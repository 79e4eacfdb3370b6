//! The growable buffer: a length/capacity-tracked sequence of elements kept
//! in one block of a [`crate::heap::Heap`].  It grows by reallocation — at
//! least doubling the capacity, with floor 1 — and offers an escape hatch to
//! decompose into, and reconstruct from, a raw (address, length, capacity)
//! triple.  Reserve requests at or below the current capacity are no-ops.

use vstd::prelude::*;

use crate::heap::{Allocation, Heap};
use crate::MemError;

verus! {

/// Mathematical description of a buffer: where its block lives (address 0 is
/// null, used only at capacity 0), how much of it is initialized, and the
/// element layout it allocates with.
pub struct BufferModel {
    pub address: usize,
    pub length: usize,
    pub capacity: usize,
    pub element_size: usize,
    pub element_align: usize,
}

/// The capacity after one growth step: at least double, floor 1.
pub open spec fn grown_capacity(capacity: usize) -> int {
    if capacity == 0 {
        1
    } else {
        2 * capacity
    }
}

/// The capacity `reserve` grows to when `min_capacity` exceeds the current
/// capacity: at least double the current capacity, subject to the requested
/// minimum; when doubling is not representable the request alone decides.
pub open spec fn reserve_target(capacity: usize, min_capacity: usize) -> int {
    if grown_capacity(capacity) > usize::MAX {
        min_capacity as int
    } else if min_capacity >= grown_capacity(capacity) {
        min_capacity as int
    } else {
        grown_capacity(capacity)
    }
}

pub struct Buffer<T> {
    address: usize,
    length: usize,
    capacity: usize,
    element_size: usize,
    element_align: usize,
    elem: core::marker::PhantomData<T>,
}

impl<T> View for Buffer<T> {
    type V = BufferModel;

    closed spec fn view(&self) -> BufferModel {
        BufferModel {
            address: self.address,
            length: self.length,
            capacity: self.capacity,
            element_size: self.element_size,
            element_align: self.element_align,
        }
    }
}

impl<T> Buffer<T> {
    /// The buffer's invariant against the heap its block lives in: the
    /// length never exceeds the capacity, the address is null exactly when
    /// the capacity is 0, and otherwise it denotes a live block of matching
    /// layout whose first `length` slots are initialized.
    pub open spec fn wf(self, h: Heap<T>) -> bool {
        &&& self@.length <= self@.capacity
        &&& if self@.capacity == 0 {
            self@.address == 0
        } else {
            &&& h.is_live(self@.address)
            &&& h.block(self@.address).element_size == self@.element_size
            &&& h.block(self@.address).element_align == self@.element_align
            &&& h.block(self@.address).elems.len() == self@.capacity
            &&& forall|i: int|
                0 <= i < self@.length ==> h.block(self@.address).elems[i] is Some
        }
    }

    /// The initialized elements, in order.
    pub open spec fn elems(self, h: Heap<T>) -> Seq<T> {
        Seq::new(self@.length as nat, |i: int| h.block(self@.address).elems[i].unwrap())
    }

    pub fn len(&self) -> (r: usize)
        ensures
            r == self@.length,
    {
        self.length
    }

    pub fn capacity(&self) -> (r: usize)
        ensures
            r == self@.capacity,
    {
        self.capacity
    }

    pub fn address(&self) -> (r: usize)
        ensures
            r == self@.address,
    {
        self.address
    }

    /// Consumes the buffer and hands out its raw (address, length, capacity)
    /// triple.  The buffer value is gone: nothing will destroy the block any
    /// more, the caller now owns that duty, through `from_raw_parts` or by
    /// releasing the allocation directly.
    pub fn into_raw_parts(self) -> (r: (usize, usize, usize))
        ensures
            r == (self@.address, self@.length, self@.capacity),
    {
        (self.address, self.length, self.capacity)
    }

    /// Reconstructs a buffer from a raw triple and the element layout it was
    /// decomposed with.  The precondition demands exactly what a matching
    /// `into_raw_parts` of a well-formed buffer (or an equivalent allocation
    /// of the same layout with the first `length` slots initialized) left
    /// behind; there is no runtime check, misuse is ruled out by proof.
    pub fn from_raw_parts(
        h: &Heap<T>,
        address: usize,
        length: usize,
        capacity: usize,
        element_size: usize,
        element_align: usize,
    ) -> (r: Buffer<T>)
        requires
            length <= capacity,
            capacity == 0 ==> address == 0,
            capacity > 0 ==> {
                &&& h.is_live(address)
                &&& h.block(address).element_size == element_size
                &&& h.block(address).element_align == element_align
                &&& h.block(address).elems.len() == capacity
                &&& forall|i: int| 0 <= i < length ==> h.block(address).elems[i] is Some
            },
        ensures
            r@ == (BufferModel { address, length, capacity, element_size, element_align }),
            r.wf(*h),
    {
        Buffer {
            address,
            length,
            capacity,
            element_size,
            element_align,
            elem: core::marker::PhantomData,
        }
    }
}

impl<T: Copy> Buffer<T> {
    /// Creates a buffer of `capacity` uninitialized slots of the given
    /// element layout; capacity 0 allocates nothing.  Fails exactly when the
    /// heap cannot supply the block.
    pub fn create(
        h: &mut Heap<T>,
        capacity: usize,
        element_size: usize,
        element_align: usize,
    ) -> (r: Result<Buffer<T>, MemError>)
        requires
            old(h).wf(),
        ensures
            final(h).wf(),
            final(h)@.budget == old(h)@.budget,
            r is Ok <==> capacity * element_size <= old(h)@.available,
            match r {
                Ok(b) => {
                    &&& b.wf(*final(h))
                    &&& b@.length == 0
                    &&& b@.capacity == capacity
                    &&& b@.element_size == element_size
                    &&& b@.element_align == element_align
                    &&& b.elems(*final(h)) == Seq::<T>::empty()
                    &&& if capacity == 0 {
                        b@.address == 0 && *final(h) == *old(h)
                    } else {
                        &&& b@.address == old(h)@.blocks.len() + 1
                        &&& !old(h).is_valid_address(b@.address)
                        &&& final(h)@.available == old(h)@.available - capacity * element_size
                        &&& forall|a: usize|
                            old(h).is_valid_address(a) ==> final(h).block(a) == old(h).block(a)
                        &&& forall|a: usize|
                            old(h).is_valid_address(a) ==> final(h).is_valid_address(a)
                    }
                },
                Err(e) => {
                    &&& *final(h) == *old(h)
                    &&& (e == MemError::CapacityOverflow <==> capacity * element_size
                        > usize::MAX)
                    &&& (e == MemError::AllocationFailed <==> capacity * element_size <= usize::MAX
                        && capacity * element_size > old(h)@.available)
                },
            },
    {
        if capacity == 0 {
            let b = Buffer {
                address: 0,
                length: 0,
                capacity: 0,
                element_size,
                element_align,
                elem: core::marker::PhantomData,
            };
            proof {
                assert(b.elems(*h) =~= Seq::<T>::empty());
                assert(capacity * element_size == 0);
            }
            Ok(b)
        } else {
            let ghost prev = *h;
            match h.allocate(element_size, element_align, capacity) {
                Err(e) => {
                    proof {
                        assert(element_size * capacity == capacity * element_size)
                            by (nonlinear_arith);
                    }
                    Err(e)
                },
                Ok(a) => {
                    let address = a.address();
                    let b = Buffer {
                        address,
                        length: 0,
                        capacity,
                        element_size,
                        element_align,
                        elem: core::marker::PhantomData,
                    };
                    proof {
                        assert(element_size * capacity == capacity * element_size)
                            by (nonlinear_arith);
                        assert(b.elems(*h) =~= Seq::<T>::empty());
                        assert(forall|x: usize|
                            prev.is_valid_address(x) ==> h.block(x) == prev.block(x));
                    }
                    Ok(b)
                },
            }
        }
    }

    /// Moves the initialized elements into a fresh block of `new_capacity`
    /// slots, releases the old block, and re-points the buffer.
    fn grow_to(&mut self, h: &mut Heap<T>, new_capacity: usize) -> (r: Result<(), MemError>)
        requires
            old(h).wf(),
            old(self).wf(*old(h)),
            new_capacity >= 1,
            new_capacity >= old(self)@.length,
        ensures
            final(h).wf(),
            final(h)@.budget == old(h)@.budget,
            r is Ok <==> new_capacity * old(self)@.element_size <= old(h)@.available,
            match r {
                Ok(()) => {
                    &&& final(self).wf(*final(h))
                    &&& final(self)@.length == old(self)@.length
                    &&& final(self)@.capacity == new_capacity
                    &&& final(self)@.element_size == old(self)@.element_size
                    &&& final(self)@.element_align == old(self)@.element_align
                    &&& final(self)@.address == old(h)@.blocks.len() + 1
                    &&& !old(h).is_valid_address(final(self)@.address)
                    &&& final(self).elems(*final(h)) == old(self).elems(*old(h))
                    &&& (old(self)@.capacity > 0 ==> !final(h).is_live(old(self)@.address))
                    &&& final(h)@.available == old(h)@.available - new_capacity
                        * old(self)@.element_size + old(self)@.capacity * old(self)@.element_size
                    &&& forall|a: usize|
                        old(h).is_valid_address(a) && a != old(self)@.address ==> final(h).block(a)
                            == old(h).block(a)
                    &&& forall|a: usize|
                        old(h).is_valid_address(a) ==> final(h).is_valid_address(a)
                },
                Err(e) => {
                    &&& *final(self) == *old(self)
                    &&& *final(h) == *old(h)
                    &&& (e == MemError::CapacityOverflow <==> new_capacity
                        * old(self)@.element_size > usize::MAX)
                    &&& (e == MemError::AllocationFailed <==> new_capacity
                        * old(self)@.element_size <= usize::MAX && new_capacity
                        * old(self)@.element_size > old(h)@.available)
                },
            },
    {
        let ghost prev_h = *old(h);
        let ghost prev_s = *old(self);
        let ghost orig = old(self).elems(*old(h));
        match h.allocate(self.element_size, self.element_align, new_capacity) {
            Err(e) => {
                proof {
                    assert(self.element_size * new_capacity == new_capacity * self.element_size)
                        by (nonlinear_arith);
                }
                Err(e)
            },
            Ok(a_new) => {
                proof {
                    assert(self.element_size * new_capacity == new_capacity * self.element_size)
                        by (nonlinear_arith);
                }
                let ghost new_address = a_new@.address;
                let a_old = Allocation::assemble(
                    self.address,
                    self.element_size,
                    self.element_align,
                    self.capacity,
                );
                let mut i: usize = 0;
                while i < self.length
                    invariant
                        h.wf(),
                        h@.budget == prev_h@.budget,
                        h@.available == prev_h@.available - new_capacity * prev_s@.element_size,
                        *self == prev_s,
                        self.wf(prev_h),
                        i <= self@.length,
                        a_new@.address == new_address,
                        new_address == prev_h@.blocks.len() + 1,
                        a_new@.element_size == prev_s@.element_size,
                        a_new@.element_align == prev_s@.element_align,
                        a_new@.element_count == new_capacity,
                        a_new.valid_for(*h),
                        a_old@.address == prev_s@.address,
                        a_old@.element_size == prev_s@.element_size,
                        a_old@.element_align == prev_s@.element_align,
                        a_old@.element_count == prev_s@.capacity,
                        new_capacity >= prev_s@.length,
                        orig == prev_s.elems(prev_h),
                        forall|a: usize|
                            prev_h.is_valid_address(a) ==> h.block(a) == #[trigger] prev_h.block(
                                a,
                            ),
                        forall|a: usize|
                            #[trigger] prev_h.is_valid_address(a) ==> h.is_valid_address(a),
                        h@.blocks.len() == prev_h@.blocks.len() + 1,
                        h.is_live(new_address),
                        h.block(new_address).element_size == prev_s@.element_size,
                        h.block(new_address).element_align == prev_s@.element_align,
                        h.block(new_address).elems.len() == new_capacity,
                        forall|j: int| 0 <= j < i ==> h.block(new_address).elems[j] == Some(orig[j]),
                    decreases self@.length - i,
                {
                    let v = h.read_at(&a_old, i);
                    h.write_at(&a_new, i, v);
                    i += 1;
                }
                proof {
                    assert(h@.available == prev_h@.available - new_capacity
                        * prev_s@.element_size);
                }
                if self.capacity > 0 {
                    h.release(a_old);
                    proof {
                        assert(h@.available == prev_h@.available - new_capacity
                            * prev_s@.element_size + prev_s@.capacity * prev_s@.element_size);
                    }
                } else {
                    proof {
                        assert(prev_s@.capacity == 0);
                        assert(prev_s@.capacity * prev_s@.element_size == 0) by (nonlinear_arith)
                            requires prev_s@.capacity == 0;
                    }
                }
                self.address = a_new.address();
                self.capacity = new_capacity;
                proof {
                    assert(self.elems(*h) =~= orig);
                    assert(h@.available == prev_h@.available - new_capacity * prev_s@.element_size
                        + prev_s@.capacity * prev_s@.element_size);
                }
                Ok(())
            },
        }
    }

    /// Appends `value`, growing to at least double the capacity (floor 1)
    /// when the buffer is full.  Amortized over a run of pushes, growth work
    /// is constant per push.  Fails exactly when a needed new block cannot
    /// be supplied; the buffer and the heap are then unchanged.
    pub fn push(&mut self, h: &mut Heap<T>, value: T) -> (r: Result<(), MemError>)
        requires
            old(h).wf(),
            old(self).wf(*old(h)),
        ensures
            final(h).wf(),
            final(h)@.budget == old(h)@.budget,
            r is Ok <==> (old(self)@.length < old(self)@.capacity || (grown_capacity(
                old(self)@.capacity,
            ) <= usize::MAX && grown_capacity(old(self)@.capacity) * old(self)@.element_size <= old(
                h,
            )@.available)),
            match r {
                Ok(()) => {
                    &&& final(self).wf(*final(h))
                    &&& final(self)@.length == old(self)@.length + 1
                    &&& final(self)@.element_size == old(self)@.element_size
                    &&& final(self)@.element_align == old(self)@.element_align
                    &&& final(self).elems(*final(h)) == old(self).elems(*old(h)).push(value)
                    &&& if old(self)@.length < old(self)@.capacity {
                        &&& final(self)@.capacity == old(self)@.capacity
                        &&& final(self)@.address == old(self)@.address
                        &&& final(h)@.available == old(h)@.available
                        &&& final(h)@.blocks.len() == old(h)@.blocks.len()
                    } else {
                        &&& final(self)@.capacity == grown_capacity(old(self)@.capacity)
                        &&& final(self)@.address == old(h)@.blocks.len() + 1
                        &&& (old(self)@.capacity > 0 ==> !final(h).is_live(old(self)@.address))
                        &&& final(h)@.available == old(h)@.available - grown_capacity(
                            old(self)@.capacity,
                        ) * old(self)@.element_size + old(self)@.capacity
                            * old(self)@.element_size
                    }
                    &&& forall|a: usize|
                        old(h).is_valid_address(a) && a != old(self)@.address && a
                            != final(self)@.address ==> final(h).block(a) == old(h).block(a)
                    &&& forall|a: usize|
                        old(h).is_valid_address(a) ==> final(h).is_valid_address(a)
                },
                Err(e) => {
                    &&& *final(self) == *old(self)
                    &&& *final(h) == *old(h)
                    &&& old(self)@.length == old(self)@.capacity
                    &&& (e == MemError::CapacityOverflow <==> (grown_capacity(old(self)@.capacity)
                        > usize::MAX || grown_capacity(old(self)@.capacity)
                        * old(self)@.element_size > usize::MAX))
                    &&& (e == MemError::AllocationFailed <==> (grown_capacity(old(self)@.capacity)
                        <= usize::MAX && grown_capacity(old(self)@.capacity)
                        * old(self)@.element_size <= usize::MAX && grown_capacity(
                        old(self)@.capacity,
                    ) * old(self)@.element_size > old(h)@.available))
                },
            },
    {
        let ghost prev_h = *old(h);
        let ghost prev_s = *old(self);
        if self.length == self.capacity {
            let doubled = if self.capacity == 0 {
                Some(1usize)
            } else {
                self.capacity.checked_mul(2)
            };
            match doubled {
                None => {
                    return Err(MemError::CapacityOverflow);
                },
                Some(new_capacity) => {
                    match self.grow_to(h, new_capacity) {
                        Err(e) => {
                            return Err(e);
                        },
                        Ok(()) => {},
                    }
                },
            }
        }
        let a = Allocation::assemble(
            self.address,
            self.element_size,
            self.element_align,
            self.capacity,
        );
        h.write_at(&a, self.length, value);
        self.length = self.length + 1;
        proof {
            assert(self.elems(*h) =~= prev_s.elems(prev_h).push(value));
        }
        Ok(())
    }

    /// Grows the buffer so that at least `min_capacity` slots are allocated;
    /// a request at or below the current capacity changes nothing.  The new
    /// capacity is at least double the old one, subject to the request.
    pub fn reserve(&mut self, h: &mut Heap<T>, min_capacity: usize) -> (r: Result<(), MemError>)
        requires
            old(h).wf(),
            old(self).wf(*old(h)),
        ensures
            final(h).wf(),
            final(h)@.budget == old(h)@.budget,
            old(self)@.capacity >= min_capacity ==> (r is Ok && *final(self) == *old(self)
                && *final(h) == *old(h)),
            old(self)@.capacity < min_capacity ==> {
                &&& (r is Ok <==> reserve_target(old(self)@.capacity, min_capacity)
                    * old(self)@.element_size <= old(h)@.available)
                &&& match r {
                    Ok(()) => {
                        &&& final(self).wf(*final(h))
                        &&& final(self)@.length == old(self)@.length
                        &&& final(self)@.capacity == reserve_target(
                            old(self)@.capacity,
                            min_capacity,
                        )
                        &&& final(self)@.element_size == old(self)@.element_size
                        &&& final(self)@.element_align == old(self)@.element_align
                        &&& final(self)@.address == old(h)@.blocks.len() + 1
                        &&& final(self).elems(*final(h)) == old(self).elems(*old(h))
                        &&& (old(self)@.capacity > 0 ==> !final(h).is_live(old(self)@.address))
                        &&& forall|a: usize|
                            old(h).is_valid_address(a) && a != old(self)@.address
                                ==> final(h).block(a) == old(h).block(a)
                        &&& forall|a: usize|
                            old(h).is_valid_address(a) ==> final(h).is_valid_address(a)
                    },
                    Err(e) => {
                        &&& *final(self) == *old(self)
                        &&& *final(h) == *old(h)
                        &&& (e == MemError::CapacityOverflow <==> reserve_target(
                            old(self)@.capacity,
                            min_capacity,
                        ) * old(self)@.element_size > usize::MAX)
                        &&& (e == MemError::AllocationFailed <==> reserve_target(
                            old(self)@.capacity,
                            min_capacity,
                        ) * old(self)@.element_size <= usize::MAX && reserve_target(
                            old(self)@.capacity,
                            min_capacity,
                        ) * old(self)@.element_size > old(h)@.available)
                    },
                }
            },
    {
        if min_capacity <= self.capacity {
            return Ok(());
        }
        let doubled = self.capacity.checked_mul(2);
        let target = match doubled {
            None => min_capacity,
            Some(d) => {
                let d = if d == 0 {
                    1usize
                } else {
                    d
                };
                if min_capacity >= d {
                    min_capacity
                } else {
                    d
                }
            },
        };
        self.grow_to(h, target)
    }

    /// Reads back the element at `index`, in insertion order.
    pub fn get(&self, h: &Heap<T>, index: usize) -> (r: T)
        requires
            h.wf(),
            self.wf(*h),
            index < self@.length,
        ensures
            r == self.elems(*h)[index as int],
    {
        let a = Allocation::assemble(
            self.address,
            self.element_size,
            self.element_align,
            self.capacity,
        );
        h.read_at(&a, index)
    }

    /// Destroys the buffer: gives up the initialized elements and returns
    /// the block (if any) to the heap.
    pub fn destroy(self, h: &mut Heap<T>)
        requires
            old(h).wf(),
            self.wf(*old(h)),
        ensures
            final(h).wf(),
            final(h)@.budget == old(h)@.budget,
            self@.capacity == 0 ==> *final(h) == *old(h),
            self@.capacity > 0 ==> {
                &&& !final(h).is_live(self@.address)
                &&& final(h)@.available == old(h)@.available + self@.capacity
                    * self@.element_size
            },
            forall|a: usize|
                old(h).is_valid_address(a) && a != self@.address ==> final(h).block(a) == old(
                    h,
                ).block(a),
            forall|a: usize| old(h).is_valid_address(a) ==> final(h).is_valid_address(a),
    {
        if self.capacity > 0 {
            let a = Allocation::assemble(
                self.address,
                self.element_size,
                self.element_align,
                self.capacity,
            );
            h.release(a);
            proof {
                assert(self@.capacity * self@.element_size == self@.element_size
                    * self@.capacity) by (nonlinear_arith);
            }
        }
    }
}

/// Law: a well-formed buffer never holds more initialized elements than its
/// capacity, and its element sequence has exactly `length` entries.
pub proof fn lemma_length_le_capacity<T>(b: Buffer<T>, h: Heap<T>)
    requires
        b.wf(h),
    ensures
        b@.length <= b@.capacity,
        b.elems(h).len() == b@.length,
{
}

/// Law: the triple a well-formed buffer decomposes into, together with its
/// element layout, meets every precondition of `from_raw_parts` against an
/// untouched heap — so a matching decomposition always reconstructs, and
/// reconstruction yields the identical address, length and capacity.
pub proof fn lemma_raw_parts_round_trip<T>(b: Buffer<T>, h: Heap<T>)
    requires
        b.wf(h),
    ensures
        b@.length <= b@.capacity,
        b@.capacity == 0 ==> b@.address == 0,
        b@.capacity > 0 ==> {
            &&& h.is_live(b@.address)
            &&& h.block(b@.address).element_size == b@.element_size
            &&& h.block(b@.address).element_align == b@.element_align
            &&& h.block(b@.address).elems.len() == b@.capacity
            &&& forall|i: int| 0 <= i < b@.length ==> h.block(b@.address).elems[i] is Some
        },
{
}

} // verus!
