//! The allocation primitive: a heap of raw blocks, each a run of element
//! slots with a recorded element layout.  Addresses are never reused, the
//! null address is `0`, and a byte budget bounds what the heap can supply,
//! so running out of memory is an observable outcome.
//!
//! `write_at` and `read_at` trade safety for zero overhead: their bounds and
//! initialization preconditions are stated as `requires`, to be discharged by
//! the buffer and handle abstractions built on top, never by end users.

use vstd::prelude::*;

use crate::MemError;

verus! {

/// Mathematical description of one block: whether it is still allocated, its
/// element layout, and the contents of its slots (`None` = uninitialized).
#[verifier::ext_equal]
pub struct BlockModel<T> {
    pub live: bool,
    pub element_size: nat,
    pub element_align: nat,
    pub elems: Seq<Option<T>>,
}

/// Mathematical description of a heap: every block ever allocated, in order
/// of allocation (address `a` is block `a - 1`), and the byte accounting.
#[verifier::ext_equal]
pub struct HeapModel<T> {
    pub blocks: Seq<BlockModel<T>>,
    pub available: nat,
    pub budget: nat,
}

/// How many bytes a block currently holds from the budget.
pub open spec fn block_bytes<T>(b: BlockModel<T>) -> nat {
    if b.live {
        b.elems.len() * b.element_size
    } else {
        0
    }
}

/// Total bytes held by all live blocks.
pub open spec fn live_bytes<T>(s: Seq<BlockModel<T>>) -> nat
    decreases s.len(),
{
    if s.len() == 0 {
        0
    } else {
        live_bytes(s.drop_last()) + block_bytes(s.last())
    }
}

proof fn lemma_live_bytes_push<T>(s: Seq<BlockModel<T>>, b: BlockModel<T>)
    ensures
        live_bytes(s.push(b)) == live_bytes(s) + block_bytes(b),
{
    assert(s.push(b).drop_last() =~= s);
    assert(s.push(b).last() == b);
}

proof fn lemma_live_bytes_update<T>(s: Seq<BlockModel<T>>, i: int, b: BlockModel<T>)
    requires
        0 <= i < s.len(),
    ensures
        live_bytes(s.update(i, b)) + block_bytes(s[i]) == live_bytes(s) + block_bytes(b),
    decreases s.len(),
{
    if i == s.len() - 1 {
        assert(s.update(i, b).drop_last() =~= s.drop_last());
        assert(s.update(i, b).last() == b);
    } else {
        assert(s.update(i, b).drop_last() =~= s.drop_last().update(i, b));
        assert(s.update(i, b).last() == s.last());
        lemma_live_bytes_update(s.drop_last(), i, b);
        assert(s.drop_last()[i] == s[i]);
    }
}

proof fn lemma_live_bytes_member<T>(s: Seq<BlockModel<T>>, i: int)
    requires
        0 <= i < s.len(),
    ensures
        block_bytes(s[i]) <= live_bytes(s),
    decreases s.len(),
{
    if i == s.len() - 1 {
        assert(s[i] == s.last());
    } else {
        lemma_live_bytes_member(s.drop_last(), i);
        assert(s.drop_last()[i] == s[i]);
    }
}

/// Witness of one live block: its address and the element layout it was
/// allocated with.  It cannot be cloned; `Heap::release` consumes it, so an
/// allocation can be returned at most once through this value.
pub struct Allocation {
    address: usize,
    element_size: usize,
    element_align: usize,
    element_count: usize,
}

/// Mathematical description of an `Allocation`.
pub struct AllocationModel {
    pub address: usize,
    pub element_size: usize,
    pub element_align: usize,
    pub element_count: usize,
}

impl View for Allocation {
    type V = AllocationModel;

    closed spec fn view(&self) -> AllocationModel {
        AllocationModel {
            address: self.address,
            element_size: self.element_size,
            element_align: self.element_align,
            element_count: self.element_count,
        }
    }
}

/// The modeled heap.  Addresses are handed out in order, starting at 1, and
/// a released address is never reused, so a stale address can never denote a
/// younger allocation.
pub struct Heap<T> {
    datas: Vec<Vec<Option<T>>>,
    lives: Vec<bool>,
    sizes: Vec<usize>,
    aligns: Vec<usize>,
    available: usize,
    budget: usize,
}

impl<T> View for Heap<T> {
    type V = HeapModel<T>;

    closed spec fn view(&self) -> HeapModel<T> {
        HeapModel {
            blocks: Seq::new(
                self.datas@.len(),
                |i: int|
                    BlockModel {
                        live: self.lives@[i],
                        element_size: self.sizes@[i] as nat,
                        element_align: self.aligns@[i] as nat,
                        elems: self.datas@[i]@,
                    },
            ),
            available: self.available as nat,
            budget: self.budget as nat,
        }
    }
}

impl Allocation {
    /// The allocation denotes a live block of `h` with matching layout.
    pub open spec fn valid_for<T>(self, h: Heap<T>) -> bool {
        &&& h.is_live(self@.address)
        &&& h.block(self@.address).element_size == self@.element_size
        &&& h.block(self@.address).element_align == self@.element_align
        &&& h.block(self@.address).elems.len() == self@.element_count
    }

    /// Reassembles the witness of a block from its raw description.  Only
    /// the abstractions above the primitive use this, when raw parts
    /// re-enter them; every later use still has to meet the heap's
    /// preconditions, so a wrong description can never touch live memory.
    pub(crate) fn assemble(
        address: usize,
        element_size: usize,
        element_align: usize,
        element_count: usize,
    ) -> (r: Allocation)
        ensures
            r@ == (AllocationModel { address, element_size, element_align, element_count }),
    {
        Allocation { address, element_size, element_align, element_count }
    }

    pub fn address(&self) -> (r: usize)
        ensures
            r == self@.address,
    {
        self.address
    }

    pub fn element_size(&self) -> (r: usize)
        ensures
            r == self@.element_size,
    {
        self.element_size
    }

    pub fn element_align(&self) -> (r: usize)
        ensures
            r == self@.element_align,
    {
        self.element_align
    }

    pub fn element_count(&self) -> (r: usize)
        ensures
            r == self@.element_count,
    {
        self.element_count
    }
}

impl<T> Heap<T> {
    /// An address that was ever handed out by this heap.
    pub open spec fn is_valid_address(self, a: usize) -> bool {
        1 <= a && a <= self@.blocks.len()
    }

    /// An address whose block is still allocated.
    pub open spec fn is_live(self, a: usize) -> bool {
        self.is_valid_address(a) && self@.blocks[a - 1].live
    }

    /// The block behind address `a`.
    pub open spec fn block(self, a: usize) -> BlockModel<T> {
        self@.blocks[a - 1]
    }

    /// Internal consistency: the parallel columns agree and the byte
    /// accounting balances, so no block and no release can overflow it.
    pub closed spec fn wf(self) -> bool {
        &&& self.lives@.len() == self.datas@.len()
        &&& self.sizes@.len() == self.datas@.len()
        &&& self.aligns@.len() == self.datas@.len()
        &&& self.available + live_bytes(self@.blocks) == self.budget
        &&& forall|i: int|
            0 <= i < self@.blocks.len() ==> block_bytes(#[trigger] self@.blocks[i]) <= self.budget
    }

    /// A fresh heap that can supply up to `budget` bytes at a time.
    pub fn new(budget: usize) -> (h: Heap<T>)
        ensures
            h.wf(),
            h@.blocks == Seq::<BlockModel<T>>::empty(),
            h@.available == budget,
            h@.budget == budget,
    {
        let h = Heap {
            datas: Vec::new(),
            lives: Vec::new(),
            sizes: Vec::new(),
            aligns: Vec::new(),
            available: budget,
            budget,
        };
        proof {
            assert(h@.blocks =~= Seq::<BlockModel<T>>::empty());
        }
        h
    }

    /// The recorded element size of a live block.
    pub fn block_element_size(&self, a: usize) -> (r: usize)
        requires
            self.wf(),
            self.is_live(a),
        ensures
            r == self.block(a).element_size,
    {
        self.sizes[a - 1]
    }

    /// The recorded element alignment of a live block.
    pub fn block_element_align(&self, a: usize) -> (r: usize)
        requires
            self.wf(),
            self.is_live(a),
        ensures
            r == self.block(a).element_align,
    {
        self.aligns[a - 1]
    }

    /// The element count of a live block.
    pub fn block_element_count(&self, a: usize) -> (r: usize)
        requires
            self.wf(),
            self.is_live(a),
        ensures
            r == self.block(a).elems.len(),
    {
        self.datas[a - 1].len()
    }

    /// Acquires a block of `count` elements of the given layout.  Fails with
    /// `CapacityOverflow` when the byte size is not representable and with
    /// `AllocationFailed` when the heap cannot supply that many bytes; it
    /// never partially succeeds.
    pub fn allocate(&mut self, element_size: usize, element_align: usize, count: usize) -> (r:
        Result<Allocation, MemError>)
        requires
            old(self).wf(),
        ensures
            final(self).wf(),
            final(self)@.budget == old(self)@.budget,
            r is Ok <==> element_size * count <= old(self)@.available,
            match r {
                Ok(a) => {
                    &&& a@.address == old(self)@.blocks.len() + 1
                    &&& a@.element_size == element_size
                    &&& a@.element_align == element_align
                    &&& a@.element_count == count
                    &&& a.valid_for(*final(self))
                    &&& final(self)@.blocks == old(self)@.blocks.push(
                        BlockModel {
                            live: true,
                            element_size: element_size as nat,
                            element_align: element_align as nat,
                            elems: Seq::new(count as nat, |i: int| None::<T>),
                        },
                    )
                    &&& final(self)@.available == old(self)@.available - element_size * count
                },
                Err(e) => {
                    &&& *final(self) == *old(self)
                    &&& (e == MemError::CapacityOverflow <==> element_size * count > usize::MAX)
                    &&& (e == MemError::AllocationFailed <==> element_size * count <= usize::MAX
                        && element_size * count > old(self)@.available)
                },
            },
    {
        match element_size.checked_mul(count) {
            None => Err(MemError::CapacityOverflow),
            Some(bytes) => {
                if bytes > self.available {
                    Err(MemError::AllocationFailed)
                } else {
                    let ghost prev = *self;
                    let mut data: Vec<Option<T>> = Vec::new();
                    let mut i: usize = 0;
                    while i < count
                        invariant
                            i <= count,
                            data@ =~= Seq::new(i as nat, |j: int| None::<T>),
                        decreases count - i,
                    {
                        data.push(None);
                        i += 1;
                        proof {
                            assert(data@ =~= Seq::new(i as nat, |j: int| None::<T>));
                        }
                    }
                    self.datas.push(data);
                    self.lives.push(true);
                    self.sizes.push(element_size);
                    self.aligns.push(element_align);
                    self.available = self.available - bytes;
                    let a = Allocation {
                        address: self.datas.len(),
                        element_size,
                        element_align,
                        element_count: count,
                    };
                    proof {
                        let b = BlockModel {
                            live: true,
                            element_size: element_size as nat,
                            element_align: element_align as nat,
                            elems: Seq::new(count as nat, |i: int| None::<T>),
                        };
                        assert(self@.blocks =~~= prev@.blocks.push(b));
                        lemma_live_bytes_push(prev@.blocks, b);
                        assert(b.elems.len() == count);
                        assert(count * element_size == element_size * count) by (nonlinear_arith);
                        assert(block_bytes(b) == bytes);
                    }
                    Ok(a)
                }
            },
        }
    }

    /// Returns a block to the heap.  Consuming the `Allocation` retires its
    /// address for good; the caller can no longer name the memory through it.
    pub fn release(&mut self, a: Allocation)
        requires
            old(self).wf(),
            a.valid_for(*old(self)),
        ensures
            final(self).wf(),
            final(self)@.budget == old(self)@.budget,
            final(self)@.blocks == old(self)@.blocks.update(
                a@.address - 1,
                BlockModel {
                    live: false,
                    element_size: a@.element_size as nat,
                    element_align: a@.element_align as nat,
                    elems: Seq::<Option<T>>::empty(),
                },
            ),
            final(self)@.available == old(self)@.available + a@.element_count * a@.element_size,
    {
        let ghost prev = *self;
        let idx = a.address - 1;
        proof {
            lemma_live_bytes_member(prev@.blocks, idx as int);
        }
        let bytes = self.sizes[idx] * self.datas[idx].len();
        self.lives.set(idx, false);
        self.datas.set(idx, Vec::new());
        self.available = self.available + bytes;
        proof {
            let dead = BlockModel {
                live: false,
                element_size: a@.element_size as nat,
                element_align: a@.element_align as nat,
                elems: Seq::<Option<T>>::empty(),
            };
            assert(self@.blocks =~~= prev@.blocks.update(idx as int, dead));
            lemma_live_bytes_update(prev@.blocks, idx as int, dead);
        }
    }

    /// Initializes or overwrites the slot `index` of a live block.
    pub fn write_at(&mut self, a: &Allocation, index: usize, value: T)
        requires
            old(self).wf(),
            a.valid_for(*old(self)),
            index < a@.element_count,
        ensures
            final(self).wf(),
            final(self)@.budget == old(self)@.budget,
            final(self)@.available == old(self)@.available,
            final(self)@.blocks == old(self)@.blocks.update(
                a@.address - 1,
                BlockModel {
                    live: true,
                    element_size: a@.element_size as nat,
                    element_align: a@.element_align as nat,
                    elems: old(self).block(a@.address).elems.update(index as int, Some(value)),
                },
            ),
    {
        let ghost prev = *self;
        let idx = a.address - 1;
        let d: &mut Vec<Option<T>> = &mut self.datas[idx];
        d.set(index, Some(value));
        proof {
            let b = BlockModel {
                live: true,
                element_size: a@.element_size as nat,
                element_align: a@.element_align as nat,
                elems: prev.block(a@.address).elems.update(index as int, Some(value)),
            };
            assert(self@.blocks =~~= prev@.blocks.update(idx as int, b));
            lemma_live_bytes_update(prev@.blocks, idx as int, b);
        }
    }
}

impl<T: Copy> Heap<T> {
    /// Reads back the slot `index` of a live block; the slot must have been
    /// written before.
    pub fn read_at(&self, a: &Allocation, index: usize) -> (r: T)
        requires
            self.wf(),
            a.valid_for(*self),
            index < a@.element_count,
            self.block(a@.address).elems[index as int] is Some,
        ensures
            Some(r) == self.block(a@.address).elems[index as int],
    {
        let idx = a.address - 1;
        let d: &Vec<Option<T>> = &self.datas[idx];
        match d[index] {
            Some(v) => v,
            None => vstd::pervasive::unreached(),
        }
    }
}

} // verus!
