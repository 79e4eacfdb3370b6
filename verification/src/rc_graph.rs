//! The read-only shared graph: nodes owned by a reference-counting store
//! and named through shared handles.  A handle permits inspecting its
//! pointee but not rewriting it; a node's own downstream link changes only
//! through exclusive access to the node value itself, before it is shared.
//! Cloning a handle increments the pointee's count, releasing one
//! decrements it, and the pointee is destroyed exactly when the count
//! reaches zero — its own downstream handle is then released the same way.
//! Downstream edges always point to older entries, so the graph cannot form
//! a cycle and destruction terminates.

use vstd::prelude::*;

use crate::MemError;

verus! {

/// Mathematical description of one store entry: whether the node is alive,
/// how many handles refer to it (held by clients or stored in other
/// entries), its payload, and the address its downstream edge points to.
pub struct EntryModel {
    pub live: bool,
    pub refcount: usize,
    pub id: usize,
    pub downstream: Option<usize>,
}

/// 1 when entry `e` holds a stored reference to address `d`.
pub open spec fn entry_ref(e: EntryModel, d: usize) -> nat {
    if e.live && e.downstream == Some(d) {
        1
    } else {
        0
    }
}

/// How many store entries hold a reference to address `d`.
pub open spec fn stored_refs(s: Seq<EntryModel>, d: usize) -> nat
    decreases s.len(),
{
    if s.len() == 0 {
        0
    } else {
        stored_refs(s.drop_last(), d) + entry_ref(s.last(), d)
    }
}

/// The per-entry invariant: a live entry's count covers every stored
/// reference to it, and its downstream edge points to an older live entry;
/// a dead entry holds nothing.
pub open spec fn entry_ok(s: Seq<EntryModel>, a: usize) -> bool {
    if s[a as int].live {
        &&& s[a as int].refcount >= 1
        &&& stored_refs(s, a) <= s[a as int].refcount
        &&& match s[a as int].downstream {
            Some(d) => d < a && s[d as int].live,
            None => true,
        }
    } else {
        s[a as int].refcount == 0 && s[a as int].downstream is None
    }
}

/// What releasing one handle to address `a` leaves behind: either the count
/// merely drops, or the entry dies and its stored downstream handle is
/// released in turn.
pub open spec fn release_model(s: Seq<EntryModel>, a: usize) -> Seq<EntryModel>
    decreases a,
{
    let e = s[a as int];
    if e.refcount > 1 {
        s.update(a as int, EntryModel { refcount: (e.refcount - 1) as usize, ..e })
    } else {
        let s2 = s.update(
            a as int,
            EntryModel { live: false, refcount: 0, id: e.id, downstream: None },
        );
        match e.downstream {
            Some(d) => if d < a {
                release_model(s2, d)
            } else {
                s2
            },
            None => s2,
        }
    }
}

proof fn lemma_stored_refs_push(s: Seq<EntryModel>, e: EntryModel, d: usize)
    ensures
        stored_refs(s.push(e), d) == stored_refs(s, d) + entry_ref(e, d),
{
    assert(s.push(e).drop_last() =~= s);
    assert(s.push(e).last() == e);
}

proof fn lemma_stored_refs_update(s: Seq<EntryModel>, i: int, e: EntryModel, d: usize)
    requires
        0 <= i < s.len(),
    ensures
        stored_refs(s.update(i, e), d) + entry_ref(s[i], d) == stored_refs(s, d) + entry_ref(e, d),
    decreases s.len(),
{
    if i == s.len() - 1 {
        assert(s.update(i, e).drop_last() =~= s.drop_last());
        assert(s.update(i, e).last() == e);
    } else {
        assert(s.update(i, e).drop_last() =~= s.drop_last().update(i, e));
        assert(s.update(i, e).last() == s.last());
        lemma_stored_refs_update(s.drop_last(), i, e, d);
        assert(s.drop_last()[i] == s[i]);
    }
}

proof fn lemma_stored_refs_member(s: Seq<EntryModel>, i: int, d: usize)
    requires
        0 <= i < s.len(),
    ensures
        entry_ref(s[i], d) <= stored_refs(s, d),
    decreases s.len(),
{
    if i == s.len() - 1 {
        assert(s[i] == s.last());
    } else {
        lemma_stored_refs_member(s.drop_last(), i, d);
        assert(s.drop_last()[i] == s[i]);
    }
}

proof fn lemma_stored_refs_none(s: Seq<EntryModel>, d: usize)
    requires
        forall|i: int| 0 <= i < s.len() ==> entry_ref(#[trigger] s[i], d) == 0,
    ensures
        stored_refs(s, d) == 0,
    decreases s.len(),
{
    if s.len() > 0 {
        lemma_stored_refs_none(s.drop_last(), d);
        assert(s.last() == s[s.len() - 1]);
    }
}

proof fn lemma_release_model_above(s: Seq<EntryModel>, a: usize)
    requires
        a < s.len(),
    ensures
        release_model(s, a).len() == s.len(),
        forall|x: int| a < x < s.len() ==> #[trigger] release_model(s, a)[x] == s[x],
    decreases a,
{
    let e = s[a as int];
    if e.refcount > 1 {
        assert(release_model(s, a) == s.update(
            a as int,
            EntryModel { refcount: (e.refcount - 1) as usize, ..e },
        ));
    } else {
        let s2 = s.update(
            a as int,
            EntryModel { live: false, refcount: 0, id: e.id, downstream: None },
        );
        assert(s2.len() == s.len());
        match e.downstream {
            Some(d) => {
                if d < a {
                    lemma_release_model_above(s2, d);
                    assert forall|x: int| a < x < s.len() implies #[trigger] release_model(
                        s,
                        a,
                    )[x] == s[x] by {
                        assert(release_model(s2, d)[x] == s2[x]);
                    }
                }
            },
            None => {},
        }
    }
}

/// Law: releasing one handle to a live node decrements its count by one,
/// and destroys the node exactly when the count reaches zero — never
/// before.  A destroyed entry's count is zero and no handle to it can meet
/// `NodeStore::handle_ok` again, so it can never be destroyed twice.
pub proof fn lemma_release_counts(s: Seq<EntryModel>, a: usize)
    requires
        a < s.len(),
        s[a as int].live,
        s[a as int].refcount >= 1,
    ensures
        release_model(s, a).len() == s.len(),
        s[a as int].refcount > 1 ==> release_model(s, a)[a as int].live && release_model(
            s,
            a,
        )[a as int].refcount == s[a as int].refcount - 1,
        s[a as int].refcount == 1 ==> !release_model(s, a)[a as int].live && release_model(
            s,
            a,
        )[a as int].refcount == 0,
{
    let e = s[a as int];
    if e.refcount <= 1 {
        let s2 = s.update(
            a as int,
            EntryModel { live: false, refcount: 0, id: e.id, downstream: None },
        );
        match e.downstream {
            Some(d) => {
                if d < a {
                    lemma_release_model_above(s2, d);
                    assert(release_model(s2, d)[a as int] == s2[a as int]);
                }
            },
            None => {},
        }
    }
}

/// A shared, read-only reference to one node of a store.  It cannot be
/// cloned directly: `NodeStore::clone_handle` does, because the pointee's
/// count must move with it.  Its view is the pointee's address.
pub struct SharedHandle {
    address: usize,
}

impl View for SharedHandle {
    type V = usize;

    closed spec fn view(&self) -> usize {
        self.address
    }
}

impl SharedHandle {
    pub fn address(&self) -> (r: usize)
        ensures
            r == self@,
    {
        self.address
    }
}

/// Mathematical description of a node value: its payload and the address
/// its downstream handle (if any) points to.
pub struct NodeModel {
    pub id: usize,
    pub downstream: Option<usize>,
}

/// A graph node of the read-only variant.  Until it is moved into a store
/// by `NodeStore::share`, it is an ordinary exclusively-owned value, and
/// only that exclusive access lets its downstream edge change.
pub struct Node {
    id: usize,
    downstream: Option<SharedHandle>,
}

impl View for Node {
    type V = NodeModel;

    closed spec fn view(&self) -> NodeModel {
        NodeModel {
            id: self.id,
            downstream: match self.downstream {
                Some(h) => Some(h@),
                None => None,
            },
        }
    }
}

/// The reference-counting store that owns shared nodes.
pub struct NodeStore {
    ids: Vec<usize>,
    rcs: Vec<usize>,
    lives: Vec<bool>,
    downs: Vec<Option<usize>>,
}

impl View for NodeStore {
    type V = Seq<EntryModel>;

    closed spec fn view(&self) -> Seq<EntryModel> {
        Seq::new(
            self.ids@.len(),
            |i: int|
                EntryModel {
                    live: self.lives@[i],
                    refcount: self.rcs@[i],
                    id: self.ids@[i],
                    downstream: self.downs@[i],
                },
        )
    }
}

impl NodeStore {
    /// An address a handle was ever handed out for.
    pub open spec fn is_valid(self, a: usize) -> bool {
        a < self@.len()
    }

    /// An address whose node is still alive.
    pub open spec fn is_live(self, a: usize) -> bool {
        self.is_valid(a) && self@[a as int].live
    }

    /// The reference count recorded for address `a`.
    pub open spec fn refcount(self, a: usize) -> usize {
        self@[a as int].refcount
    }

    /// A handle to `a` that the caller genuinely owns: the pointee is alive
    /// and its count exceeds the references stored inside the store, so at
    /// least one count belongs to a client-held handle.
    pub open spec fn handle_ok(self, a: usize) -> bool {
        self.is_live(a) && stored_refs(self@, a) < self.refcount(a)
    }

    pub closed spec fn columns_ok(self) -> bool {
        &&& self.rcs@.len() == self.ids@.len()
        &&& self.lives@.len() == self.ids@.len()
        &&& self.downs@.len() == self.ids@.len()
    }

    /// The store's invariant: every entry is `entry_ok`.
    pub open spec fn wf(self) -> bool {
        &&& self.columns_ok()
        &&& forall|a: usize| a < self@.len() ==> entry_ok(self@, a)
    }

    /// An empty store.
    pub fn new() -> (st: NodeStore)
        ensures
            st.wf(),
            st@ == Seq::<EntryModel>::empty(),
    {
        let st = NodeStore { ids: Vec::new(), rcs: Vec::new(), lives: Vec::new(), downs: Vec::new() };
        proof {
            assert(st@ =~= Seq::<EntryModel>::empty());
        }
        st
    }

    /// Moves `node` into the store and hands out the first handle to it;
    /// the new entry starts with count 1.  The node's own downstream handle
    /// moves in with it and is counted as a stored reference from then on.
    pub fn share(&mut self, node: Node) -> (h: SharedHandle)
        requires
            old(self).wf(),
            match node@.downstream {
                Some(d) => old(self).handle_ok(d),
                None => true,
            },
        ensures
            final(self).wf(),
            h@ == old(self)@.len(),
            final(self)@ == old(self)@.push(
                EntryModel {
                    live: true,
                    refcount: 1,
                    id: node@.id,
                    downstream: node@.downstream,
                },
            ),
            final(self).handle_ok(h@),
    {
        let ghost prev = *old(self);
        let Node { id, downstream } = node;
        let down: Option<usize> = match downstream {
            Some(hd) => Some(hd.address()),
            None => None,
        };
        let address = self.ids.len();
        self.ids.push(id);
        self.rcs.push(1);
        self.lives.push(true);
        self.downs.push(down);
        let ghost e = EntryModel { live: true, refcount: 1, id: node@.id, downstream: node@.downstream };
        proof {
            assert(self@ =~= prev@.push(e));
            assert forall|x: usize| x < self@.len() implies entry_ok(self@, x) by {
                lemma_stored_refs_push(prev@, e, x);
                if x < prev@.len() {
                    assert(entry_ok(prev@, x));
                    assert(self@[x as int] == prev@[x as int]);
                } else {
                    assert(x == prev@.len());
                    assert forall|i: int| 0 <= i < prev@.len() implies entry_ref(
                        #[trigger] prev@[i],
                        x,
                    ) == 0 by {
                        assert(entry_ok(prev@, i as usize));
                    }
                    lemma_stored_refs_none(prev@, x);
                    assert(stored_refs(self@, x) == entry_ref(e, x));
                }
            }
            lemma_stored_refs_push(prev@, e, address);
            assert forall|i: int| 0 <= i < prev@.len() implies entry_ref(
                #[trigger] prev@[i],
                address,
            ) == 0 by {
                assert(entry_ok(prev@, i as usize));
            }
            lemma_stored_refs_none(prev@, address);
        }
        SharedHandle { address }
    }

    /// Clones a handle: the pointee's count grows by one and a second
    /// handle to the same address is handed out.
    pub fn clone_handle(&mut self, h: &SharedHandle) -> (r: SharedHandle)
        requires
            old(self).wf(),
            old(self).handle_ok(h@),
            old(self).refcount(h@) < usize::MAX,
        ensures
            final(self).wf(),
            r@ == h@,
            final(self)@ == old(self)@.update(
                h@ as int,
                EntryModel {
                    refcount: (old(self).refcount(h@) + 1) as usize,
                    ..old(self)@[h@ as int]
                },
            ),
            final(self).handle_ok(h@),
            stored_refs(final(self)@, h@) == stored_refs(old(self)@, h@),
            final(self).refcount(h@) == old(self).refcount(h@) + 1,
    {
        let ghost prev = *old(self);
        let a = h.address();
        let rc = self.rcs[a];
        self.rcs.set(a, rc + 1);
        let ghost e = EntryModel { refcount: (rc + 1) as usize, ..prev@[a as int] };
        proof {
            assert(self@ =~= prev@.update(a as int, e));
            assert forall|x: usize| x < self@.len() implies entry_ok(self@, x) by {
                lemma_stored_refs_update(prev@, a as int, e, x);
                assert(entry_ok(prev@, x));
            }
            lemma_stored_refs_update(prev@, a as int, e, a);
        }
        SharedHandle { address: a }
    }

    fn release_at(&mut self, a: usize)
        requires
            old(self).wf(),
            old(self).handle_ok(a),
        ensures
            final(self).wf(),
            final(self)@ == release_model(old(self)@, a),
        decreases a,
    {
        let ghost prev = *old(self);
        let rc = self.rcs[a];
        if rc > 1 {
            self.rcs.set(a, rc - 1);
            let ghost e = EntryModel { refcount: (rc - 1) as usize, ..prev@[a as int] };
            proof {
                assert(self@ =~= prev@.update(a as int, e));
                assert forall|x: usize| x < self@.len() implies entry_ok(self@, x) by {
                    lemma_stored_refs_update(prev@, a as int, e, x);
                    assert(entry_ok(prev@, x));
                    if x == a {
                        lemma_stored_refs_update(prev@, a as int, e, a);
                    }
                }
            }
        } else {
            let down = self.downs[a];
            self.lives.set(a, false);
            self.rcs.set(a, 0);
            self.downs.set(a, None);
            let ghost e = EntryModel {
                live: false,
                refcount: 0,
                id: prev@[a as int].id,
                downstream: None,
            };
            proof {
                assert(self@ =~= prev@.update(a as int, e));
                assert(entry_ok(prev@, a));
                // No stored reference to `a` exists: its count of 1 is the
                // caller's handle.
                assert(stored_refs(prev@, a) == 0);
                assert forall|x: usize| x < self@.len() implies entry_ok(self@, x) by {
                    lemma_stored_refs_update(prev@, a as int, e, x);
                    assert(entry_ok(prev@, x));
                    if x != a && self@[x as int].live {
                        match self@[x as int].downstream {
                            Some(c) => {
                                if c == a {
                                    lemma_stored_refs_member(prev@, x as int, a);
                                    assert(entry_ref(prev@[x as int], a) == 1);
                                    assert(false);
                                }
                            },
                            None => {},
                        }
                    }
                }
            }
            match down {
                Some(d) => {
                    proof {
                        assert(entry_ok(prev@, a));
                        assert(entry_ok(prev@, d));
                        lemma_stored_refs_update(prev@, a as int, e, d);
                        assert(entry_ref(prev@[a as int], d) == 1);
                        assert(stored_refs(self@, d) + 1 == stored_refs(prev@, d));
                        assert(self@[d as int] == prev@[d as int]);
                    }
                    self.release_at(d);
                },
                None => {},
            }
        }
    }

    /// Releases a handle.  The pointee's count drops by one; when it
    /// reaches zero the node is destroyed, exactly once, and its stored
    /// downstream handle is released the same way.
    pub fn release(&mut self, h: SharedHandle)
        requires
            old(self).wf(),
            old(self).handle_ok(h@),
        ensures
            final(self).wf(),
            final(self)@ == release_model(old(self)@, h@),
            final(self)@.len() == old(self)@.len(),
    {
        let ghost prev = *old(self);
        let a = h.address();
        proof {
            lemma_release_model_above(prev@, a);
        }
        self.release_at(a);
    }

    /// The reference count of a handle's pointee.
    pub fn refcount_of(&self, h: &SharedHandle) -> (r: usize)
        requires
            self.wf(),
            self.is_live(h@),
        ensures
            r == self.refcount(h@),
    {
        self.rcs[h.address()]
    }

    /// The payload of a handle's pointee.
    pub fn id_of(&self, h: &SharedHandle) -> (r: usize)
        requires
            self.wf(),
            self.is_live(h@),
        ensures
            r == self@[h@ as int].id,
    {
        self.ids[h.address()]
    }

    /// The downstream address of a handle's pointee, if any.
    pub fn downstream_of(&self, h: &SharedHandle) -> (r: Option<usize>)
        requires
            self.wf(),
            self.is_live(h@),
        ensures
            r == self@[h@ as int].downstream,
    {
        self.downs[h.address()]
    }
}

impl Node {
    /// A fresh node with no downstream edge.
    pub fn new(id: usize) -> (n: Node)
        ensures
            n@.id == id,
            n@.downstream is None,
    {
        Node { id, downstream: None }
    }

    pub fn id(&self) -> (r: usize)
        ensures
            r == self@.id,
    {
        self.id
    }

    /// Points this node's downstream edge at `h`'s pointee, surrendering
    /// `h` to the node.  Requires exclusive access to the node value; a
    /// previously held downstream handle is released.  When the old and new
    /// handles share a pointee its count must exceed the stored references
    /// by two, so that the release cannot strand the new handle.
    pub fn set_downstream(&mut self, st: &mut NodeStore, h: SharedHandle)
        requires
            old(st).wf(),
            old(st).handle_ok(h@),
            match old(self)@.downstream {
                Some(o) => old(st).handle_ok(o) && (o == h@ ==> stored_refs(old(st)@, o) + 1
                    < old(st).refcount(o)),
                None => true,
            },
        ensures
            final(self)@.id == old(self)@.id,
            final(self)@.downstream == Some(h@),
            final(st).wf(),
            match old(self)@.downstream {
                Some(o) => final(st)@ == release_model(old(st)@, o),
                None => *final(st) == *old(st),
            },
    {
        let mut slot = Some(h);
        core::mem::swap(&mut self.downstream, &mut slot);
        match slot {
            Some(o) => st.release(o),
            None => {},
        }
    }

    /// Replaces the downstream edge through exclusive access to the node;
    /// the same operation as `set_downstream`, under its other customary
    /// name.
    pub fn update_downstream(&mut self, st: &mut NodeStore, h: SharedHandle)
        requires
            old(st).wf(),
            old(st).handle_ok(h@),
            match old(self)@.downstream {
                Some(o) => old(st).handle_ok(o) && (o == h@ ==> stored_refs(old(st)@, o) + 1
                    < old(st).refcount(o)),
                None => true,
            },
        ensures
            final(self)@.id == old(self)@.id,
            final(self)@.downstream == Some(h@),
            final(st).wf(),
            match old(self)@.downstream {
                Some(o) => final(st)@ == release_model(old(st)@, o),
                None => *final(st) == *old(st),
            },
    {
        self.set_downstream(st, h);
    }

    /// Hands out a fresh handle to this node's downstream pointee, if any,
    /// incrementing that pointee's count.
    pub fn get_downstream(&self, st: &mut NodeStore) -> (r: Option<SharedHandle>)
        requires
            old(st).wf(),
            match self@.downstream {
                Some(d) => old(st).handle_ok(d) && old(st).refcount(d) < usize::MAX,
                None => true,
            },
        ensures
            final(st).wf(),
            match self@.downstream {
                Some(d) => {
                    &&& r matches Some(hh) && hh@ == d
                    &&& final(st)@ == old(st)@.update(
                        d as int,
                        EntryModel { refcount: (old(st).refcount(d) + 1) as usize, ..old(st)@[d as int] },
                    )
                    &&& final(st).handle_ok(d)
                },
                None => r is None && *final(st) == *old(st),
            },
    {
        match &self.downstream {
            Some(hd) => Some(st.clone_handle(hd)),
            None => None,
        }
    }
}

} // verus!
