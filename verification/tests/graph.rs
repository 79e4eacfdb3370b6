use memcore::cell::{BorrowState, Cell};
use memcore::cell_graph::CellNodeStore;
use memcore::cell_graph::Node as CellNode;
use memcore::rc_graph::{Node, NodeStore};
use memcore::MemError;

#[test]
fn test_dag() {
    let mut st = NodeStore::new();
    let mut node1 = Node::new(1);
    let mut node2 = Node::new(2);
    let mut node3 = Node::new(3);
    let node4 = Node::new(4);
    let h4 = st.share(node4); // count(node4) = 1
    node3.update_downstream(&mut st, h4);

    let h3 = st.share(node3); // count(node3) = 1
    node1.update_downstream(&mut st, h3);
    let d = node1.get_downstream(&mut st).unwrap(); // count(node3) = 2
    node2.update_downstream(&mut st, d);
    println!("node1: {:?}", node1.id());
    println!("node2: {:?}", node2.id());

    // calculate the reference count for node3
    let n3 = node1.get_downstream(&mut st); // count(node3) = 3
    let count = n3.map(|node| {
        let count = st.refcount_of(&node);
        println!("count: {:?}", count);
        count
    });
    assert_eq!(count, Some(3));
    let _node5 = Node::new(5);
    let node3 = node1.get_downstream(&mut st).unwrap(); // count(node3) = 4
    assert_eq!(st.refcount_of(&node3), 4);
    assert_eq!(st.id_of(&node3), 3);
}

#[test]
fn test_ref_cell() {
    let mut data: Cell<i32> = Cell::new(1);
    {
        data.acquire_exclusive().unwrap();
        let v = data.read();
        data.write(v + 1);
        data.release_exclusive();
    }
    data.acquire_shared().unwrap();
    println!("data: {:?}", data.read());
    assert_eq!(data.read(), 2);
    data.release_shared();
}

#[test]
fn test_write_read_dag() {
    let mut st = NodeStore::new();
    let node1 = Node::new(1);
    let node2 = Node::new(2);
    let mut node3 = Node::new(3);
    let _node4 = Node::new(4);

    let h1 = st.share(node1);
    node3.update_downstream(&mut st, h1);
    let h2 = st.share(node2);
    // Replacing the edge releases the handle to node1, destroying it.
    node3.update_downstream(&mut st, h2);
}

#[test]
fn read_only_downstream_has_id_and_two_references() {
    let mut st = NodeStore::new();
    let mut node1 = Node::new(1);
    let node2 = Node::new(2);
    let h2 = st.share(node2); // count(node2) = 1
    node1.set_downstream(&mut st, h2);
    let g = node1.get_downstream(&mut st).unwrap(); // count(node2) = 2
    assert_eq!(st.id_of(&g), 2);
    assert_eq!(st.refcount_of(&g), 2);
}

#[test]
fn refcount_follows_clones_and_releases() {
    let mut st = NodeStore::new();
    // node B, observed through a handle we keep aside.
    let b = st.share(Node::new(2));
    let b_watch = st.clone_handle(&b); // count(B) = 2
    // node A holds a handle to B.
    let mut a_node = Node::new(1);
    a_node.set_downstream(&mut st, b); // count(B) still 2, one now stored
    let a = st.share(a_node); // count(A) = 1
    // k = 3 clones, then m = 2 releases: count = 1 + k - m.
    let a1 = st.clone_handle(&a);
    let a2 = st.clone_handle(&a);
    let a3 = st.clone_handle(&a);
    assert_eq!(st.refcount_of(&a), 4);
    st.release(a1);
    st.release(a2);
    assert_eq!(st.refcount_of(&a), 2);
    st.release(a3);
    assert_eq!(st.refcount_of(&a), 1);
    // The last release destroys A exactly once, which releases its stored
    // handle to B: B's count falls back to 1 (the watch handle).
    assert_eq!(st.refcount_of(&b_watch), 2);
    st.release(a);
    assert_eq!(st.refcount_of(&b_watch), 1);
}

#[test]
fn borrow_exclusivity() {
    let mut c: Cell<u32> = Cell::new(0);
    // Two nested shared borrows both succeed.
    c.acquire_shared().unwrap();
    c.acquire_shared().unwrap();
    // An exclusive borrow over an outstanding shared borrow fails.
    assert_eq!(c.acquire_exclusive(), Err(MemError::BorrowConflict));
    c.release_shared();
    assert_eq!(c.acquire_exclusive(), Err(MemError::BorrowConflict));
    c.release_shared();
    c.acquire_exclusive().unwrap();
    // Nothing overlaps an outstanding exclusive borrow.
    assert_eq!(c.acquire_exclusive(), Err(MemError::BorrowConflict));
    assert_eq!(c.acquire_shared(), Err(MemError::BorrowConflict));
    c.release_exclusive();
    assert_eq!(c.state(), BorrowState::Free);
}

#[test]
fn mutable_update_through_shared_handle() {
    let mut st = CellNodeStore::new();
    let b = st.share(CellNode::new(7)); // older entry, the new downstream
    let a = st.share(CellNode::new(1)); // node A, reachable via handles only
    let a_other = st.clone_handle(&a); // a different handle to the same node
    // Write through one shared handle...
    st.update_downstream(&a, b).unwrap();
    // ...and observe it through the other.
    let got = st.get_downstream(&a_other).unwrap().unwrap();
    assert_eq!(st.id_of(&got), 7);
    assert_eq!(st.refcount_of(&got), 2);
}

#[test]
fn mutable_update_conflicts_with_outstanding_borrow() {
    let mut st = CellNodeStore::new();
    let b = st.share(CellNode::new(7));
    let b_watch = st.clone_handle(&b); // count(b) = 2
    let a = st.share(CellNode::new(1));
    st.acquire_shared(&a).unwrap();
    // The cell is share-borrowed: an exclusive write must back off, and the
    // surrendered handle is released, so b's count falls back to 1.
    assert_eq!(st.update_downstream(&a, b), Err(MemError::BorrowConflict));
    assert_eq!(st.refcount_of(&b_watch), 1);
    assert_eq!(st.acquire_exclusive(&a), Err(MemError::BorrowConflict));
    st.release_shared(&a);
    st.acquire_exclusive(&a).unwrap();
    assert_eq!(st.get_downstream(&a).err(), Some(MemError::BorrowConflict));
    st.release_exclusive(&a);
    // Free again: reading succeeds and finds no downstream edge yet.
    assert_eq!(st.get_downstream(&a).unwrap().is_none(), true);
}

#[test]
fn mutable_standalone_node_roundtrip() {
    let mut st = CellNodeStore::new();
    let mut n = CellNode::new(4);
    let b = st.share(CellNode::new(9));
    n.update_downstream(&mut st, b).unwrap();
    let got = n.get_downstream(&mut st).unwrap().unwrap();
    assert_eq!(st.id_of(&got), 9);
    assert_eq!(st.refcount_of(&got), 2);
}
