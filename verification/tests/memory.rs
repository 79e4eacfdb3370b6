use memcore::buffer::Buffer;
use memcore::handle::Handle;
use memcore::heap::Heap;
use memcore::MemError;

#[test]
fn test_1() {
    // Raw round trip: wrap a value, leave through the raw address, come
    // back, and read the same value.
    let mut h: Heap<i32> = Heap::new(1024);
    let x = Handle::create(&mut h, 5, 4, 4).unwrap();
    let ptr = x.into_raw();
    let y = Handle::from_raw(&h, ptr, 4, 4);
    assert_eq!(y.read(&h), 5);
    y.destroy(&mut h);

    // Manual cleanup: run the teardown and release without a handle value.
    let mut hs: Heap<String> = Heap::new(1024);
    let x = Handle::create(&mut hs, String::from("Hello"), 24, 8).unwrap();
    let p = x.into_raw();
    Handle::manual_destroy(&mut hs, p);
}

#[test]
fn owned_handle_manual_destroy_retires_address() {
    let mut h: Heap<u64> = Heap::new(1024);
    let a = Handle::create(&mut h, 11, 8, 8).unwrap();
    let raw = a.into_raw();
    Handle::manual_destroy(&mut h, raw);
    // The address is retired for good: a fresh allocation never reuses it.
    let b = Handle::create(&mut h, 12, 8, 8).unwrap();
    assert_ne!(b.address(), raw);
    b.destroy(&mut h);
}

#[test]
fn buffer_push_four_from_capacity_two() {
    let mut h: Heap<u64> = Heap::new(4096);
    let mut b = Buffer::create(&mut h, 2, 8, 8).unwrap();
    for v in [10u64, 20, 30, 40] {
        b.push(&mut h, v).unwrap();
    }
    assert_eq!(b.len(), 4);
    assert!(b.capacity() >= 4);
    assert_eq!(b.get(&h, 0), 10);
    assert_eq!(b.get(&h, 1), 20);
    assert_eq!(b.get(&h, 2), 30);
    assert_eq!(b.get(&h, 3), 40);
    b.destroy(&mut h);
}

#[test]
fn push_keeps_length_within_capacity() {
    let mut h: Heap<u32> = Heap::new(1 << 20);
    let mut b = Buffer::create(&mut h, 0, 4, 4).unwrap();
    for i in 0..100u32 {
        b.push(&mut h, i).unwrap();
        assert!(b.len() <= b.capacity());
        assert_eq!(b.len() as u32, i + 1);
    }
    b.destroy(&mut h);
}

#[test]
fn doubling_bounds_reallocations() {
    let mut h: Heap<u8> = Heap::new(1 << 20);
    let mut b = Buffer::create(&mut h, 1, 1, 1).unwrap();
    let mut reallocations = 0usize;
    let mut cap = b.capacity();
    for _ in 0..1000 {
        b.push(&mut h, 7).unwrap();
        if b.capacity() != cap {
            reallocations += 1;
            cap = b.capacity();
        }
    }
    // 1000 pushes from capacity 1: capacity doubles 1 -> 2 -> ... -> 1024.
    assert_eq!(reallocations, 10);
    b.destroy(&mut h);
}

#[test]
fn raw_parts_round_trip() {
    let mut h: Heap<u16> = Heap::new(1024);
    let mut b = Buffer::create(&mut h, 3, 2, 2).unwrap();
    b.push(&mut h, 5).unwrap();
    b.push(&mut h, 6).unwrap();
    let address = b.address();
    let (raw_address, raw_length, raw_capacity) = b.into_raw_parts();
    assert_eq!(raw_address, address);
    assert_eq!(raw_length, 2);
    assert_eq!(raw_capacity, 3);
    let b2 = Buffer::from_raw_parts(&h, raw_address, raw_length, raw_capacity, 2, 2);
    assert_eq!(b2.address(), raw_address);
    assert_eq!(b2.len(), raw_length);
    assert_eq!(b2.capacity(), raw_capacity);
    assert_eq!(b2.get(&h, 0), 5);
    assert_eq!(b2.get(&h, 1), 6);
    b2.destroy(&mut h);
}

#[test]
fn empty_buffer_has_null_address() {
    let mut h: Heap<u64> = Heap::new(1024);
    let b = Buffer::create(&mut h, 0, 8, 8).unwrap();
    assert_eq!(b.address(), 0);
    assert_eq!(b.len(), 0);
    assert_eq!(b.capacity(), 0);
    let (raw_address, raw_length, raw_capacity) = b.into_raw_parts();
    assert_eq!((raw_address, raw_length, raw_capacity), (0, 0, 0));
    let b2 = Buffer::from_raw_parts(&h, raw_address, raw_length, raw_capacity, 8, 8);
    let mut b2 = b2;
    b2.push(&mut h, 1).unwrap();
    assert_eq!(b2.capacity(), 1);
    assert_eq!(b2.get(&h, 0), 1);
    b2.destroy(&mut h);
}

#[test]
fn reserve_grows_only_upward() {
    let mut h: Heap<u64> = Heap::new(4096);
    let mut b = Buffer::create(&mut h, 2, 8, 8).unwrap();
    b.push(&mut h, 1).unwrap();
    b.reserve(&mut h, 1).unwrap();
    assert_eq!(b.capacity(), 2); // shrink requests are no-ops
    b.reserve(&mut h, 10).unwrap();
    assert!(b.capacity() >= 10);
    assert_eq!(b.len(), 1);
    assert_eq!(b.get(&h, 0), 1);
    b.destroy(&mut h);
}

#[test]
fn allocation_failure_is_reported() {
    let mut h: Heap<u64> = Heap::new(64);
    let r = Buffer::<u64>::create(&mut h, 100, 8, 8);
    assert_eq!(r.err(), Some(MemError::AllocationFailed));
    // The heap still works after the failure.
    let b = Buffer::create(&mut h, 4, 8, 8).unwrap();
    b.destroy(&mut h);
}

#[test]
fn capacity_overflow_is_reported() {
    let mut h: Heap<u8> = Heap::new(1024);
    let r = Buffer::<u8>::create(&mut h, usize::MAX, 2, 1);
    assert_eq!(r.err(), Some(MemError::CapacityOverflow));
}

#[test]
fn release_returns_budget() {
    let mut h: Heap<u64> = Heap::new(80);
    // 80 bytes pay for ten u64 slots; a full buffer and back again.
    let b = Buffer::create(&mut h, 10, 8, 8).unwrap();
    assert_eq!(Buffer::<u64>::create(&mut h, 1, 8, 8).err(), Some(MemError::AllocationFailed));
    b.destroy(&mut h);
    let b2 = Buffer::create(&mut h, 10, 8, 8).unwrap();
    b2.destroy(&mut h);
}

#[test]
fn heap_write_read_roundtrip() {
    let mut h: Heap<u32> = Heap::new(1024);
    let a = h.allocate(4, 4, 3).unwrap();
    h.write_at(&a, 0, 7);
    h.write_at(&a, 1, 8);
    h.write_at(&a, 2, 9);
    assert_eq!(h.read_at(&a, 0), 7);
    assert_eq!(h.read_at(&a, 1), 8);
    assert_eq!(h.read_at(&a, 2), 9);
    h.write_at(&a, 1, 80);
    assert_eq!(h.read_at(&a, 1), 80);
    h.release(a);
}

#[test]
fn heap_allocate_overflow_and_exhaustion() {
    let mut h: Heap<u8> = Heap::new(16);
    assert_eq!(h.allocate(usize::MAX, 1, 2).err(), Some(MemError::CapacityOverflow));
    assert_eq!(h.allocate(1, 1, 17).err(), Some(MemError::AllocationFailed));
    let a = h.allocate(1, 1, 16).unwrap();
    h.release(a);
}
