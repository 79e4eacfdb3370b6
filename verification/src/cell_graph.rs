//! The mutable shared graph: like [`crate::rc_graph`], but every node's
//! downstream edge is wrapped in an interior-mutability cell, so a holder of
//! only a shared handle can still request mutation, subject to the cell's
//! borrow-state check.  A request that would overlap an outstanding borrow
//! fails with `BorrowConflict` and changes nothing.  New downstream edges
//! must point to older entries, which keeps the graph a DAG and destruction
//! terminating.

use vstd::prelude::*;

use crate::cell::{BorrowState, Cell};
use crate::MemError;

verus! {

/// Mathematical description of one store entry: lifeness, reference count,
/// payload, the cell's borrow state, and the guarded downstream address.
pub struct EntryModel {
    pub live: bool,
    pub refcount: usize,
    pub id: usize,
    pub borrow: BorrowState,
    pub downstream: Option<usize>,
}

/// 1 when entry `e` holds a stored reference to address `d`.
pub open spec fn entry_ref(e: EntryModel, d: usize) -> nat {
    if e.live && e.downstream == Some(d) {
        1
    } else {
        0
    }
}

/// How many store entries hold a reference to address `d`.
pub open spec fn stored_refs(s: Seq<EntryModel>, d: usize) -> nat
    decreases s.len(),
{
    if s.len() == 0 {
        0
    } else {
        stored_refs(s.drop_last(), d) + entry_ref(s.last(), d)
    }
}

/// The per-entry invariant: a live entry's count covers every stored
/// reference to it, its cell never records a zero shared count, and its
/// downstream edge points to an older live entry; a dead entry holds
/// nothing and its cell is free.
pub open spec fn entry_ok(s: Seq<EntryModel>, a: usize) -> bool {
    if s[a as int].live {
        &&& s[a as int].refcount >= 1
        &&& stored_refs(s, a) <= s[a as int].refcount
        &&& (s[a as int].borrow matches BorrowState::SharedBorrowed(n) ==> n >= 1)
        &&& match s[a as int].downstream {
            Some(d) => d < a && s[d as int].live,
            None => true,
        }
    } else {
        &&& s[a as int].refcount == 0
        &&& s[a as int].downstream is None
        &&& s[a as int].borrow == BorrowState::Free
    }
}

/// What releasing one handle to address `a` leaves behind.
pub open spec fn release_model(s: Seq<EntryModel>, a: usize) -> Seq<EntryModel>
    decreases a,
{
    let e = s[a as int];
    if e.refcount > 1 {
        s.update(a as int, EntryModel { refcount: (e.refcount - 1) as usize, ..e })
    } else {
        let s2 = s.update(
            a as int,
            EntryModel {
                live: false,
                refcount: 0,
                id: e.id,
                borrow: BorrowState::Free,
                downstream: None,
            },
        );
        match e.downstream {
            Some(d) => if d < a {
                release_model(s2, d)
            } else {
                s2
            },
            None => s2,
        }
    }
}

proof fn lemma_stored_refs_push(s: Seq<EntryModel>, e: EntryModel, d: usize)
    ensures
        stored_refs(s.push(e), d) == stored_refs(s, d) + entry_ref(e, d),
{
    assert(s.push(e).drop_last() =~= s);
    assert(s.push(e).last() == e);
}

proof fn lemma_stored_refs_update(s: Seq<EntryModel>, i: int, e: EntryModel, d: usize)
    requires
        0 <= i < s.len(),
    ensures
        stored_refs(s.update(i, e), d) + entry_ref(s[i], d) == stored_refs(s, d) + entry_ref(e, d),
    decreases s.len(),
{
    if i == s.len() - 1 {
        assert(s.update(i, e).drop_last() =~= s.drop_last());
        assert(s.update(i, e).last() == e);
    } else {
        assert(s.update(i, e).drop_last() =~= s.drop_last().update(i, e));
        assert(s.update(i, e).last() == s.last());
        lemma_stored_refs_update(s.drop_last(), i, e, d);
        assert(s.drop_last()[i] == s[i]);
    }
}

proof fn lemma_stored_refs_member(s: Seq<EntryModel>, i: int, d: usize)
    requires
        0 <= i < s.len(),
    ensures
        entry_ref(s[i], d) <= stored_refs(s, d),
    decreases s.len(),
{
    if i == s.len() - 1 {
        assert(s[i] == s.last());
    } else {
        lemma_stored_refs_member(s.drop_last(), i, d);
        assert(s.drop_last()[i] == s[i]);
    }
}

proof fn lemma_stored_refs_none(s: Seq<EntryModel>, d: usize)
    requires
        forall|i: int| 0 <= i < s.len() ==> entry_ref(#[trigger] s[i], d) == 0,
    ensures
        stored_refs(s, d) == 0,
    decreases s.len(),
{
    if s.len() > 0 {
        lemma_stored_refs_none(s.drop_last(), d);
        assert(s.last() == s[s.len() - 1]);
    }
}

proof fn lemma_release_model_above(s: Seq<EntryModel>, a: usize)
    requires
        a < s.len(),
    ensures
        release_model(s, a).len() == s.len(),
        forall|x: int| a < x < s.len() ==> #[trigger] release_model(s, a)[x] == s[x],
    decreases a,
{
    let e = s[a as int];
    if e.refcount > 1 {
        assert(release_model(s, a) == s.update(
            a as int,
            EntryModel { refcount: (e.refcount - 1) as usize, ..e },
        ));
    } else {
        let s2 = s.update(
            a as int,
            EntryModel {
                live: false,
                refcount: 0,
                id: e.id,
                borrow: BorrowState::Free,
                downstream: None,
            },
        );
        assert(s2.len() == s.len());
        match e.downstream {
            Some(d) => {
                if d < a {
                    lemma_release_model_above(s2, d);
                    assert forall|x: int| a < x < s.len() implies #[trigger] release_model(
                        s,
                        a,
                    )[x] == s[x] by {
                        assert(release_model(s2, d)[x] == s2[x]);
                    }
                }
            },
            None => {},
        }
    }
}

/// Law: releasing one handle to a live node decrements its count by one,
/// and destroys the node exactly when the count reaches zero — never
/// before.  A destroyed entry's count is zero and no handle to it can meet
/// `CellNodeStore::handle_ok` again, so it can never be destroyed twice.
pub proof fn lemma_release_counts(s: Seq<EntryModel>, a: usize)
    requires
        a < s.len(),
        s[a as int].live,
        s[a as int].refcount >= 1,
    ensures
        release_model(s, a).len() == s.len(),
        s[a as int].refcount > 1 ==> release_model(s, a)[a as int].live && release_model(
            s,
            a,
        )[a as int].refcount == s[a as int].refcount - 1,
        s[a as int].refcount == 1 ==> !release_model(s, a)[a as int].live && release_model(
            s,
            a,
        )[a as int].refcount == 0,
{
    let e = s[a as int];
    if e.refcount <= 1 {
        let s2 = s.update(
            a as int,
            EntryModel {
                live: false,
                refcount: 0,
                id: e.id,
                borrow: BorrowState::Free,
                downstream: None,
            },
        );
        match e.downstream {
            Some(d) => {
                if d < a {
                    lemma_release_model_above(s2, d);
                    assert(release_model(s2, d)[a as int] == s2[a as int]);
                }
            },
            None => {},
        }
    }
}

/// A shared reference to one node of a mutable-variant store.  Its view is
/// the pointee's address.
pub struct SharedHandle {
    address: usize,
}

impl View for SharedHandle {
    type V = usize;

    closed spec fn view(&self) -> usize {
        self.address
    }
}

impl SharedHandle {
    pub fn address(&self) -> (r: usize)
        ensures
            r == self@,
    {
        self.address
    }
}

/// Mathematical description of a node value.
pub struct NodeModel {
    pub id: usize,
    pub downstream: Option<usize>,
}

/// A graph node of the mutable variant: its downstream edge lives in an
/// interior-mutability cell, so it can change behind a shared handle once
/// the node is in a store.
pub struct Node {
    id: usize,
    downstream: Cell<Option<usize>>,
}

impl View for Node {
    type V = NodeModel;

    closed spec fn view(&self) -> NodeModel {
        NodeModel { id: self.id, downstream: self.downstream.value() }
    }
}

/// The reference-counting store that owns mutable-variant nodes.
pub struct CellNodeStore {
    ids: Vec<usize>,
    rcs: Vec<usize>,
    lives: Vec<bool>,
    cells: Vec<Cell<Option<usize>>>,
}

impl View for CellNodeStore {
    type V = Seq<EntryModel>;

    closed spec fn view(&self) -> Seq<EntryModel> {
        Seq::new(
            self.ids@.len(),
            |i: int|
                EntryModel {
                    live: self.lives@[i],
                    refcount: self.rcs@[i],
                    id: self.ids@[i],
                    borrow: self.cells@[i].borrow_state(),
                    downstream: self.cells@[i].value(),
                },
        )
    }
}

impl CellNodeStore {
    /// An address a handle was ever handed out for.
    pub open spec fn is_valid(self, a: usize) -> bool {
        a < self@.len()
    }

    /// An address whose node is still alive.
    pub open spec fn is_live(self, a: usize) -> bool {
        self.is_valid(a) && self@[a as int].live
    }

    /// The reference count recorded for address `a`.
    pub open spec fn refcount(self, a: usize) -> usize {
        self@[a as int].refcount
    }

    /// The borrow state of the cell guarding `a`'s downstream edge.
    pub open spec fn borrow_state(self, a: usize) -> BorrowState {
        self@[a as int].borrow
    }

    /// A handle to `a` that the caller genuinely owns: the pointee is alive
    /// and its count exceeds the references stored inside the store.
    pub open spec fn handle_ok(self, a: usize) -> bool {
        self.is_live(a) && stored_refs(self@, a) < self.refcount(a)
    }

    pub closed spec fn columns_ok(self) -> bool {
        &&& self.rcs@.len() == self.ids@.len()
        &&& self.lives@.len() == self.ids@.len()
        &&& self.cells@.len() == self.ids@.len()
    }

    /// The store's invariant: every entry is `entry_ok`.
    pub open spec fn wf(self) -> bool {
        &&& self.columns_ok()
        &&& forall|a: usize| a < self@.len() ==> entry_ok(self@, a)
    }

    /// An empty store.
    pub fn new() -> (st: CellNodeStore)
        ensures
            st.wf(),
            st@ == Seq::<EntryModel>::empty(),
    {
        let st = CellNodeStore {
            ids: Vec::new(),
            rcs: Vec::new(),
            lives: Vec::new(),
            cells: Vec::new(),
        };
        proof {
            assert(st@ =~= Seq::<EntryModel>::empty());
        }
        st
    }

    /// Moves `node` into the store and hands out the first handle to it.
    /// The node's cell must be free of borrows; its downstream handle moves
    /// in and becomes a stored reference.
    pub fn share(&mut self, node: Node) -> (h: SharedHandle)
        requires
            old(self).wf(),
            node.borrow_state() == BorrowState::Free,
            match node@.downstream {
                Some(d) => old(self).handle_ok(d),
                None => true,
            },
        ensures
            final(self).wf(),
            h@ == old(self)@.len(),
            final(self)@ == old(self)@.push(
                EntryModel {
                    live: true,
                    refcount: 1,
                    id: node@.id,
                    borrow: BorrowState::Free,
                    downstream: node@.downstream,
                },
            ),
            final(self).handle_ok(h@),
    {
        let ghost prev = *old(self);
        let Node { id, downstream } = node;
        let address = self.ids.len();
        let down = downstream.into_inner();
        self.ids.push(id);
        self.rcs.push(1);
        self.lives.push(true);
        self.cells.push(Cell::new(down));
        let ghost e = EntryModel {
            live: true,
            refcount: 1,
            id: node@.id,
            borrow: BorrowState::Free,
            downstream: node@.downstream,
        };
        proof {
            assert(self@ =~= prev@.push(e));
            assert forall|x: usize| x < self@.len() implies entry_ok(self@, x) by {
                lemma_stored_refs_push(prev@, e, x);
                if x < prev@.len() {
                    assert(entry_ok(prev@, x));
                    assert(self@[x as int] == prev@[x as int]);
                } else {
                    assert(x == prev@.len());
                    assert forall|i: int| 0 <= i < prev@.len() implies entry_ref(
                        #[trigger] prev@[i],
                        x,
                    ) == 0 by {
                        assert(entry_ok(prev@, i as usize));
                    }
                    lemma_stored_refs_none(prev@, x);
                    assert(stored_refs(self@, x) == entry_ref(e, x));
                }
            }
            lemma_stored_refs_push(prev@, e, address);
            assert forall|i: int| 0 <= i < prev@.len() implies entry_ref(
                #[trigger] prev@[i],
                address,
            ) == 0 by {
                assert(entry_ok(prev@, i as usize));
            }
            lemma_stored_refs_none(prev@, address);
        }
        SharedHandle { address }
    }

    /// Clones a handle: the pointee's count grows by one.
    pub fn clone_handle(&mut self, h: &SharedHandle) -> (r: SharedHandle)
        requires
            old(self).wf(),
            old(self).handle_ok(h@),
            old(self).refcount(h@) < usize::MAX,
        ensures
            final(self).wf(),
            r@ == h@,
            final(self)@ == old(self)@.update(
                h@ as int,
                EntryModel {
                    refcount: (old(self).refcount(h@) + 1) as usize,
                    ..old(self)@[h@ as int]
                },
            ),
            final(self).handle_ok(h@),
            final(self).refcount(h@) == old(self).refcount(h@) + 1,
    {
        let ghost prev = *old(self);
        let a = h.address();
        let rc = self.rcs[a];
        self.rcs.set(a, rc + 1);
        let ghost e = EntryModel { refcount: (rc + 1) as usize, ..prev@[a as int] };
        proof {
            assert(self@ =~= prev@.update(a as int, e));
            assert forall|x: usize| x < self@.len() implies entry_ok(self@, x) by {
                lemma_stored_refs_update(prev@, a as int, e, x);
                assert(entry_ok(prev@, x));
            }
            lemma_stored_refs_update(prev@, a as int, e, a);
        }
        SharedHandle { address: a }
    }

    fn release_at(&mut self, a: usize)
        requires
            old(self).wf(),
            old(self).handle_ok(a),
        ensures
            final(self).wf(),
            final(self)@ == release_model(old(self)@, a),
        decreases a,
    {
        let ghost prev = *old(self);
        let rc = self.rcs[a];
        if rc > 1 {
            self.rcs.set(a, rc - 1);
            let ghost e = EntryModel { refcount: (rc - 1) as usize, ..prev@[a as int] };
            proof {
                assert(self@ =~= prev@.update(a as int, e));
                assert forall|x: usize| x < self@.len() implies entry_ok(self@, x) by {
                    lemma_stored_refs_update(prev@, a as int, e, x);
                    assert(entry_ok(prev@, x));
                    if x == a {
                        lemma_stored_refs_update(prev@, a as int, e, a);
                    }
                }
            }
        } else {
            let down = {
                let c = &self.cells[a];
                c.peek()
            };
            self.cells.set(a, Cell::new(None));
            self.lives.set(a, false);
            self.rcs.set(a, 0);
            let ghost e = EntryModel {
                live: false,
                refcount: 0,
                id: prev@[a as int].id,
                borrow: BorrowState::Free,
                downstream: None,
            };
            proof {
                assert(self@ =~= prev@.update(a as int, e));
                assert(entry_ok(prev@, a));
                // No stored reference to `a` exists: its count of 1 is the
                // caller's handle.
                assert(stored_refs(prev@, a) == 0);
                assert forall|x: usize| x < self@.len() implies entry_ok(self@, x) by {
                    lemma_stored_refs_update(prev@, a as int, e, x);
                    assert(entry_ok(prev@, x));
                    if x != a && self@[x as int].live {
                        match self@[x as int].downstream {
                            Some(c) => {
                                if c == a {
                                    lemma_stored_refs_member(prev@, x as int, a);
                                    assert(entry_ref(prev@[x as int], a) == 1);
                                    assert(false);
                                }
                            },
                            None => {},
                        }
                    }
                }
            }
            match down {
                Some(d) => {
                    proof {
                        assert(entry_ok(prev@, a));
                        assert(entry_ok(prev@, d));
                        lemma_stored_refs_update(prev@, a as int, e, d);
                        assert(entry_ref(prev@[a as int], d) == 1);
                        assert(stored_refs(self@, d) + 1 == stored_refs(prev@, d));
                        assert(self@[d as int] == prev@[d as int]);
                    }
                    self.release_at(d);
                },
                None => {},
            }
        }
    }

    /// Releases a handle.  The pointee's count drops by one; when it
    /// reaches zero the node is destroyed, exactly once, and its stored
    /// downstream handle is released the same way.
    pub fn release(&mut self, h: SharedHandle)
        requires
            old(self).wf(),
            old(self).handle_ok(h@),
        ensures
            final(self).wf(),
            final(self)@ == release_model(old(self)@, h@),
            final(self)@.len() == old(self)@.len(),
    {
        let ghost prev = *old(self);
        let a = h.address();
        proof {
            lemma_release_model_above(prev@, a);
        }
        self.release_at(a);
    }

    /// The reference count of a handle's pointee.
    pub fn refcount_of(&self, h: &SharedHandle) -> (r: usize)
        requires
            self.wf(),
            self.is_live(h@),
        ensures
            r == self.refcount(h@),
    {
        self.rcs[h.address()]
    }

    /// The payload of a handle's pointee.
    pub fn id_of(&self, h: &SharedHandle) -> (r: usize)
        requires
            self.wf(),
            self.is_live(h@),
        ensures
            r == self@[h@ as int].id,
    {
        self.ids[h.address()]
    }

    /// Rewrites the pointee's downstream edge through a shared handle,
    /// surrendering `h` to the entry.  The write happens under the cell's
    /// exclusive borrow, held for its duration; while any borrow is
    /// outstanding the request fails with `BorrowConflict`, the edge stays
    /// as it was, and the surrendered handle is released — every count
    /// still equals its live handles, and the caller can take a fresh
    /// handle and try again.  The new edge must point to an older entry,
    /// and on success a previously stored downstream handle is released.
    pub fn update_downstream(&mut self, target: &SharedHandle, h: SharedHandle) -> (r: Result<
        (),
        MemError,
    >)
        requires
            old(self).wf(),
            old(self).handle_ok(target@),
            old(self).handle_ok(h@),
            h@ < target@,
        ensures
            final(self).wf(),
            r is Ok <==> old(self).borrow_state(target@) == BorrowState::Free,
            match r {
                Ok(()) => {
                    final(self)@ == (match old(self)@[target@ as int].downstream {
                        Some(o) => release_model(
                            old(self)@.update(
                                target@ as int,
                                EntryModel { downstream: Some(h@), ..old(self)@[target@ as int] },
                            ),
                            o,
                        ),
                        None => old(self)@.update(
                            target@ as int,
                            EntryModel { downstream: Some(h@), ..old(self)@[target@ as int] },
                        ),
                    })
                },
                Err(e) => e == MemError::BorrowConflict && final(self)@ == release_model(
                    old(self)@,
                    h@,
                ),
            },
    {
        let ghost prev = *old(self);
        let a = target.address();
        let new_down = h.address();
        proof {
            assert(entry_ok(prev@, a));
        }
        let acquired = {
            let c = &mut self.cells[a];
            c.acquire_exclusive()
        };
        match acquired {
            Err(e) => {
                proof {
                    assert(self@ =~= prev@);
                    assert(self.wf());
                }
                self.release_at(new_down);
                return Err(e);
            },
            Ok(()) => {},
        }
        let old_down: Option<usize> = {
            let c = &mut self.cells[a];
            let od = c.replace(Some(new_down));
            c.release_exclusive();
            od
        };
        let ghost e = EntryModel { downstream: Some(new_down), ..prev@[a as int] };
        proof {
            assert(self@ =~= prev@.update(a as int, e));
            assert(entry_ok(prev@, a));
            assert(entry_ok(prev@, new_down));
            assert forall|x: usize| x < self@.len() implies entry_ok(self@, x) by {
                lemma_stored_refs_update(prev@, a as int, e, x);
                assert(entry_ok(prev@, x));
            }
        }
        match old_down {
            Some(o) => {
                proof {
                    assert(entry_ok(prev@, o));
                    lemma_stored_refs_update(prev@, a as int, e, o);
                    lemma_stored_refs_update(prev@, a as int, e, new_down);
                    assert(self@[o as int] == prev@[o as int] || o == a);
                }
                self.release_at(o);
            },
            None => {},
        }
        Ok(())
    }

    /// Hands out a fresh handle to the pointee's downstream node, if any.
    /// The read happens under the cell's shared borrow, held for its
    /// duration; while the exclusive borrow is outstanding the request
    /// fails with `BorrowConflict` and nothing changes.
    pub fn get_downstream(&mut self, target: &SharedHandle) -> (r: Result<
        Option<SharedHandle>,
        MemError,
    >)
        requires
            old(self).wf(),
            old(self).handle_ok(target@),
            old(self).borrow_state(target@) != BorrowState::SharedBorrowed(usize::MAX),
            match old(self)@[target@ as int].downstream {
                Some(d) => old(self).refcount(d) < usize::MAX,
                None => true,
            },
        ensures
            final(self).wf(),
            r is Ok <==> old(self).borrow_state(target@) != BorrowState::ExclusiveBorrowed,
            match r {
                Ok(opt) => match old(self)@[target@ as int].downstream {
                    Some(d) => {
                        &&& opt matches Some(hh) && hh@ == d
                        &&& final(self)@ == old(self)@.update(
                            d as int,
                            EntryModel {
                                refcount: (old(self).refcount(d) + 1) as usize,
                                ..old(self)@[d as int]
                            },
                        )
                        &&& final(self).handle_ok(d)
                    },
                    None => opt is None && final(self)@ == old(self)@,
                },
                Err(e) => e == MemError::BorrowConflict && final(self)@ == old(self)@,
            },
    {
        let ghost prev = *old(self);
        let a = target.address();
        let down: Option<usize>;
        proof {
            assert(entry_ok(prev@, a));
        }
        {
            let c = &mut self.cells[a];
            match c.acquire_shared() {
                Err(e) => {
                    proof {
                        assert(self@ =~= prev@);
                    }
                    return Err(e);
                },
                Ok(()) => {},
            }
            down = c.read();
            c.release_shared();
        }
        proof {
            assert(entry_ok(prev@, a));
            assert(self@ =~= prev@);
        }
        match down {
            None => Ok(None),
            Some(d) => {
                proof {
                    assert(entry_ok(prev@, d));
                    lemma_stored_refs_member(prev@, a as int, d);
                }
                let rc = self.rcs[d];
                self.rcs.set(d, rc + 1);
                let ghost e = EntryModel { refcount: (rc + 1) as usize, ..prev@[d as int] };
                proof {
                    assert(self@ =~= prev@.update(d as int, e));
                    assert forall|x: usize| x < self@.len() implies entry_ok(self@, x) by {
                        lemma_stored_refs_update(prev@, d as int, e, x);
                        assert(entry_ok(prev@, x));
                    }
                    lemma_stored_refs_update(prev@, d as int, e, d);
                }
                Ok(Some(SharedHandle { address: d }))
            },
        }
    }

    /// Takes a shared borrow of the cell guarding the pointee's downstream
    /// edge, to be given back with `release_shared`.  Fails with
    /// `BorrowConflict` while the exclusive borrow is outstanding.
    pub fn acquire_shared(&mut self, h: &SharedHandle) -> (r: Result<(), MemError>)
        requires
            old(self).wf(),
            old(self).handle_ok(h@),
            old(self).borrow_state(h@) != BorrowState::SharedBorrowed(usize::MAX),
        ensures
            final(self).wf(),
            r is Ok <==> old(self).borrow_state(h@) != BorrowState::ExclusiveBorrowed,
            match r {
                Ok(()) => final(self)@ == old(self)@.update(
                    h@ as int,
                    EntryModel {
                        borrow: (match old(self).borrow_state(h@) {
                            BorrowState::SharedBorrowed(n) => BorrowState::SharedBorrowed(
                                (n + 1) as usize,
                            ),
                            _ => BorrowState::SharedBorrowed(1),
                        }),
                        ..old(self)@[h@ as int]
                    },
                ),
                Err(e) => e == MemError::BorrowConflict && final(self)@ == old(self)@,
            },
    {
        let ghost prev = *old(self);
        let a = h.address();
        proof {
            assert(entry_ok(prev@, a));
        }
        let r = {
            let c = &mut self.cells[a];
            c.acquire_shared()
        };
        proof {
            assert(entry_ok(prev@, a));
            match r {
                Ok(()) => {
                    let e = EntryModel {
                        borrow: (match prev.borrow_state(a) {
                            BorrowState::SharedBorrowed(n) => BorrowState::SharedBorrowed(
                                (n + 1) as usize,
                            ),
                            _ => BorrowState::SharedBorrowed(1),
                        }),
                        ..prev@[a as int]
                    };
                    assert(self@ =~= prev@.update(a as int, e));
                    assert forall|x: usize| x < self@.len() implies entry_ok(self@, x) by {
                        lemma_stored_refs_update(prev@, a as int, e, x);
                        assert(entry_ok(prev@, x));
                    }
                },
                Err(_) => {
                    assert(self@ =~= prev@);
                },
            }
        }
        r
    }

    /// Gives one shared borrow of the pointee's cell back.
    pub fn release_shared(&mut self, h: &SharedHandle)
        requires
            old(self).wf(),
            old(self).handle_ok(h@),
            old(self).borrow_state(h@) matches BorrowState::SharedBorrowed(_),
        ensures
            final(self).wf(),
            old(self).borrow_state(h@) matches BorrowState::SharedBorrowed(n) ==> final(self)@
                == old(self)@.update(
                h@ as int,
                EntryModel {
                    borrow: (if n == 1 {
                        BorrowState::Free
                    } else {
                        BorrowState::SharedBorrowed((n - 1) as usize)
                    }),
                    ..old(self)@[h@ as int]
                },
            ),
    {
        let ghost prev = *old(self);
        let a = h.address();
        {
            let c = &mut self.cells[a];
            proof {
                assert(entry_ok(prev@, a));
            }
            c.release_shared();
        }
        proof {
            let n = prev.borrow_state(a)->SharedBorrowed_0;
            let e = EntryModel {
                borrow: (if n == 1 {
                    BorrowState::Free
                } else {
                    BorrowState::SharedBorrowed((n - 1) as usize)
                }),
                ..prev@[a as int]
            };
            assert(self@ =~= prev@.update(a as int, e));
            assert forall|x: usize| x < self@.len() implies entry_ok(self@, x) by {
                lemma_stored_refs_update(prev@, a as int, e, x);
                assert(entry_ok(prev@, x));
            }
        }
    }

    /// Takes the exclusive borrow of the cell guarding the pointee's
    /// downstream edge, to be given back with `release_exclusive`.  Fails
    /// with `BorrowConflict` while any borrow is outstanding.
    pub fn acquire_exclusive(&mut self, h: &SharedHandle) -> (r: Result<(), MemError>)
        requires
            old(self).wf(),
            old(self).handle_ok(h@),
        ensures
            final(self).wf(),
            r is Ok <==> old(self).borrow_state(h@) == BorrowState::Free,
            match r {
                Ok(()) => final(self)@ == old(self)@.update(
                    h@ as int,
                    EntryModel {
                        borrow: BorrowState::ExclusiveBorrowed,
                        ..old(self)@[h@ as int]
                    },
                ),
                Err(e) => e == MemError::BorrowConflict && final(self)@ == old(self)@,
            },
    {
        let ghost prev = *old(self);
        let a = h.address();
        proof {
            assert(entry_ok(prev@, a));
        }
        let r = {
            let c = &mut self.cells[a];
            c.acquire_exclusive()
        };
        proof {
            match r {
                Ok(()) => {
                    let e = EntryModel {
                        borrow: BorrowState::ExclusiveBorrowed,
                        ..prev@[a as int]
                    };
                    assert(self@ =~= prev@.update(a as int, e));
                    assert forall|x: usize| x < self@.len() implies entry_ok(self@, x) by {
                        lemma_stored_refs_update(prev@, a as int, e, x);
                        assert(entry_ok(prev@, x));
                    }
                },
                Err(_) => {
                    assert(self@ =~= prev@);
                },
            }
        }
        r
    }

    /// Gives the exclusive borrow of the pointee's cell back.
    pub fn release_exclusive(&mut self, h: &SharedHandle)
        requires
            old(self).wf(),
            old(self).handle_ok(h@),
            old(self).borrow_state(h@) == BorrowState::ExclusiveBorrowed,
        ensures
            final(self).wf(),
            final(self)@ == old(self)@.update(
                h@ as int,
                EntryModel { borrow: BorrowState::Free, ..old(self)@[h@ as int] },
            ),
    {
        let ghost prev = *old(self);
        let a = h.address();
        {
            let c = &mut self.cells[a];
            proof {
                assert(entry_ok(prev@, a));
            }
            c.release_exclusive();
        }
        proof {
            let e = EntryModel { borrow: BorrowState::Free, ..prev@[a as int] };
            assert(self@ =~= prev@.update(a as int, e));
            assert forall|x: usize| x < self@.len() implies entry_ok(self@, x) by {
                lemma_stored_refs_update(prev@, a as int, e, x);
                assert(entry_ok(prev@, x));
            }
        }
    }
}

impl Node {
    /// The borrow state of this node's own cell.
    pub open spec fn borrow_state(self) -> BorrowState {
        self.downstream_cell_state()
    }

    pub closed spec fn downstream_cell_state(self) -> BorrowState {
        self.downstream.borrow_state()
    }

    /// A fresh node with no downstream edge and a free cell.
    pub fn new(id: usize) -> (n: Node)
        ensures
            n@.id == id,
            n@.downstream is None,
            n.borrow_state() == BorrowState::Free,
    {
        Node { id, downstream: Cell::new(None) }
    }

    pub fn id(&self) -> (r: usize)
        ensures
            r == self@.id,
    {
        self.id
    }

    /// Rewrites this node's downstream edge under its cell's exclusive
    /// borrow, surrendering `h` to the node; a previously held downstream
    /// handle is released.  With no borrow outstanding — and a node value
    /// outside a store keeps none across calls — the write succeeds.
    pub fn update_downstream(&mut self, st: &mut CellNodeStore, h: SharedHandle) -> (r: Result<
        (),
        MemError,
    >)
        requires
            old(self).borrow_state() == BorrowState::Free,
            old(st).wf(),
            old(st).handle_ok(h@),
            match old(self)@.downstream {
                Some(o) => old(st).handle_ok(o) && (o == h@ ==> stored_refs(old(st)@, o) + 1
                    < old(st).refcount(o)),
                None => true,
            },
        ensures
            r is Ok,
            final(self)@.id == old(self)@.id,
            final(self)@.downstream == Some(h@),
            final(self).borrow_state() == BorrowState::Free,
            final(st).wf(),
            match old(self)@.downstream {
                Some(o) => final(st)@ == release_model(old(st)@, o),
                None => *final(st) == *old(st),
            },
    {
        let new_down = h.address();
        match self.downstream.acquire_exclusive() {
            Err(e) => Err(e),
            Ok(()) => {
                let old_down = self.downstream.replace(Some(new_down));
                self.downstream.release_exclusive();
                match old_down {
                    Some(o) => {
                        let oh = SharedHandle { address: o };
                        st.release(oh);
                    },
                    None => {},
                }
                Ok(())
            },
        }
    }

    /// Hands out a fresh handle to this node's downstream pointee, if any,
    /// reading the edge under the cell's shared borrow.  With no borrow
    /// outstanding the read succeeds.
    pub fn get_downstream(&mut self, st: &mut CellNodeStore) -> (r: Result<
        Option<SharedHandle>,
        MemError,
    >)
        requires
            old(self).borrow_state() == BorrowState::Free,
            old(st).wf(),
            match old(self)@.downstream {
                Some(d) => old(st).handle_ok(d) && old(st).refcount(d) < usize::MAX,
                None => true,
            },
        ensures
            r is Ok,
            final(self)@ == old(self)@,
            final(self).borrow_state() == old(self).borrow_state(),
            final(st).wf(),
            match old(self)@.downstream {
                Some(d) => {
                    &&& r matches Ok(Some(hh)) && hh@ == d
                    &&& final(st)@ == old(st)@.update(
                        d as int,
                        EntryModel {
                            refcount: (old(st).refcount(d) + 1) as usize,
                            ..old(st)@[d as int]
                        },
                    )
                    &&& final(st).handle_ok(d)
                },
                None => r == Ok::<Option<SharedHandle>, MemError>(None) && *final(st) == *old(st),
            },
    {
        match self.downstream.acquire_shared() {
            Err(e) => Err(e),
            Ok(()) => {
                let down = self.downstream.read();
                self.downstream.release_shared();
                match down {
                    Some(d) => {
                        let dh = SharedHandle { address: d };
                        let r = st.clone_handle(&dh);
                        Ok(Some(r))
                    },
                    None => Ok(None),
                }
            },
        }
    }
}

} // verus!
