use idqueue::arena::Arena;
use idqueue::arena::NULL_ADDR;
use idqueue::idqueue::IdQueue;

// Elements live in a caller-owned arena. Each test places an element's
// payload cells at its start address and leaves the cell at
// `address + offset` for the queue's next-slot.

#[test]
fn can_init() {
    let q = IdQueue::new(8);
    assert!(q.is_empty());
}

#[test]
fn can_add_one_without_segfault() {
    let mut arena = Arena::new(64);
    let mut q = IdQueue::new(8);
    let ptr: usize = 16;
    arena.write(ptr, 10);
    arena.write(ptr + 1, 20);
    q.add(&mut arena, ptr);
    assert!(q.is_empty() == false);
}

#[test]
fn can_get_nullptr_if_empty() {
    let mut arena = Arena::new(64);
    let mut q = IdQueue::new(8);
    let res = q.get(&mut arena);
    assert!(res == NULL_ADDR);
}

#[test]
fn can_get_one() {
    let mut arena = Arena::new(64);
    let mut q = IdQueue::new(8);
    let ptr: usize = 16;
    arena.write(ptr, 10);
    arena.write(ptr + 1, 20);
    q.add(&mut arena, ptr);
    let res = q.get(&mut arena);
    assert!(arena.read(res) == 10);
    assert!(arena.read(res + 1) == 20);
}

#[test]
fn can_push_multiple_x86() {
    let mut arena = Arena::new(64);
    let mut q = IdQueue::new(4);
    let ptr: usize = 16;
    arena.write(ptr, 10);
    arena.write(ptr + 1, 20);
    let ptr2: usize = 32;
    arena.write(ptr2, 8);
    arena.write(ptr2 + 1, 16);
    q.add(&mut arena, ptr);
    q.add(&mut arena, ptr2);
    assert!(q.first_addr() == ptr);
    assert!(q.last_addr() == ptr2);
    assert!(arena.read(ptr + 4) == ptr2);
    let res = q.get(&mut arena);
    assert!(arena.read(res) == 10);
    assert!(arena.read(res + 1) == 20);
    assert!(!q.is_empty());
    let res2 = q.get(&mut arena);
    assert!(arena.read(res2) == 8);
    assert!(arena.read(res2 + 1) == 16);
    assert!(q.is_empty());
}

#[test]
fn can_push_multiple_x86_64() {
    let mut arena = Arena::new(64);
    let mut q = IdQueue::new(8);
    let ptr: usize = 16;
    arena.write(ptr, 10);
    arena.write(ptr + 1, 20);
    let ptr2: usize = 32;
    arena.write(ptr2, 8);
    arena.write(ptr2 + 1, 16);
    q.add(&mut arena, ptr);
    q.add(&mut arena, ptr2);
    assert!(q.first_addr() == ptr);
    assert!(q.last_addr() == ptr2);
    assert!(arena.read(ptr + 8) == ptr2);
    let res = q.get(&mut arena);
    assert!(arena.read(res) == 10);
    assert!(arena.read(res + 1) == 20);
    assert!(!q.is_empty());
    let res2 = q.get(&mut arena);
    assert!(arena.read(res2) == 8);
    assert!(arena.read(res2 + 1) == 16);
    assert!(q.is_empty());
}

#[test]
fn empty_on_construction() {
    let mut arena = Arena::new(16);
    let mut q = IdQueue::new(8);
    assert!(q.is_empty());
    assert_eq!(q.first_addr(), NULL_ADDR);
    assert_eq!(q.last_addr(), NULL_ADDR);
    assert_eq!(q.get(&mut arena), NULL_ADDR);
}

#[test]
fn single_round_trip() {
    let mut arena = Arena::new(64);
    let mut q = IdQueue::new(8);
    let e: usize = 24;
    q.add(&mut arena, e);
    let res = q.get(&mut arena);
    assert_eq!(res, e);
    assert!(q.is_empty());
}

#[test]
fn fifo_ordering() {
    let mut arena = Arena::new(128);
    let mut q = IdQueue::new(2);
    let e1: usize = 10;
    let e2: usize = 20;
    let e3: usize = 30;
    q.add(&mut arena, e1);
    q.add(&mut arena, e2);
    q.add(&mut arena, e3);
    assert_eq!(q.get(&mut arena), e1);
    assert_eq!(q.get(&mut arena), e2);
    assert_eq!(q.get(&mut arena), e3);
    assert!(q.is_empty());
}

#[test]
fn next_slot_hygiene() {
    let mut arena = Arena::new(64);
    let mut q = IdQueue::new(8);
    let e1: usize = 16;
    let e2: usize = 32;
    q.add(&mut arena, e1);
    q.add(&mut arena, e2);
    let res = q.get(&mut arena);
    assert_eq!(res, e1);
    assert_eq!(arena.read(res + 8), NULL_ADDR);
    let res2 = q.get(&mut arena);
    assert_eq!(res2, e2);
    assert_eq!(arena.read(res2 + 8), NULL_ADDR);
}

#[test]
fn tail_tracking() {
    let mut arena = Arena::new(64);
    let mut q = IdQueue::new(8);
    let e1: usize = 16;
    let e2: usize = 32;
    q.add(&mut arena, e1);
    assert_eq!(q.last_addr(), e1);
    q.add(&mut arena, e2);
    assert_eq!(q.last_addr(), e2);
    assert_eq!(arena.read(e1 + 8), e2);
}

#[test]
fn drain_to_empty() {
    let mut arena = Arena::new(256);
    let mut q = IdQueue::new(1);
    let elems: [usize; 4] = [10, 40, 70, 100];
    for e in elems {
        q.add(&mut arena, e);
    }
    for e in elems {
        assert_eq!(q.get(&mut arena), e);
    }
    assert!(q.is_empty());
    assert_eq!(q.get(&mut arena), NULL_ADDR);
}

#[test]
fn dequeued_element_can_be_enqueued_again() {
    let mut arena = Arena::new(64);
    let mut q = IdQueue::new(8);
    let e: usize = 16;
    q.add(&mut arena, e);
    assert_eq!(q.get(&mut arena), e);
    q.add(&mut arena, e);
    assert_eq!(q.get(&mut arena), e);
    assert!(q.is_empty());
}

#[test]
fn offset_eight_scenario() {
    // Pointer-width aligned next field at offset 8; element A holds
    // fields 10 and 20, element B holds fields 8 and 16.
    let mut arena = Arena::new(64);
    let mut q = IdQueue::new(8);
    let a: usize = 16;
    arena.write(a, 10);
    arena.write(a + 1, 20);
    let b: usize = 32;
    arena.write(b, 8);
    arena.write(b + 1, 16);
    q.add(&mut arena, a);
    q.add(&mut arena, b);
    assert_eq!(arena.read(a + 8), b);
    let first = q.get(&mut arena);
    assert_eq!(first, a);
    assert_eq!(arena.read(first), 10);
    assert_eq!(arena.read(first + 1), 20);
    let second = q.get(&mut arena);
    assert_eq!(second, b);
    assert_eq!(arena.read(second), 8);
    assert_eq!(arena.read(second + 1), 16);
    assert!(q.is_empty());
}
