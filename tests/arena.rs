use core::mem::MaybeUninit;
use gba_life::arena::{Heap, Mutex};

fn region(len: usize) -> &'static mut [MaybeUninit<u8>] {
    Box::leak(vec![MaybeUninit::<u8>::uninit(); len].into_boxed_slice())
}

fn init(heap: &mut Heap, ie: &mut u16, len: usize) -> bool {
    heap.lock(ie);
    assert_eq!(*ie, 0);
    let r = heap.init(region(len));
    heap.unlock(ie);
    r
}

fn allocate(heap: &mut Heap, ie: &mut u16, size: usize, align: usize) -> Option<usize> {
    heap.lock(ie);
    assert_eq!(*ie, 0);
    let r = heap.allocate(size, align);
    heap.unlock(ie);
    r
}

#[test]
fn allocation_before_init_fails() {
    let mut heap = Heap::empty();
    let mut ie: u16 = 0x2001;
    assert_eq!(allocate(&mut heap, &mut ie, 8, 8), None);
    assert_eq!(ie, 0x2001);
}

#[test]
fn allocation_larger_than_arena_fails() {
    let mut heap = Heap::empty();
    let mut ie: u16 = 1;
    assert!(init(&mut heap, &mut ie, 1024));
    assert_eq!(allocate(&mut heap, &mut ie, 2048, 8), None);
    assert_eq!(allocate(&mut heap, &mut ie, 1025, 1), None);
    assert_eq!(ie, 1);
}

#[test]
fn allocation_within_arena_succeeds_until_exhausted() {
    let mut heap = Heap::empty();
    let mut ie: u16 = 0x00ff;
    assert!(init(&mut heap, &mut ie, 1024));
    let a = allocate(&mut heap, &mut ie, 64, 8).unwrap();
    let b = allocate(&mut heap, &mut ie, 64, 8).unwrap();
    assert!(a != 0 && b != 0 && a != b);
    assert_eq!(a % 8, 0);
    let mut count = 2;
    while allocate(&mut heap, &mut ie, 64, 8).is_some() {
        count += 1;
        assert!(count <= 16);
    }
    assert_eq!(ie, 0x00ff);
}

#[test]
fn init_runs_once() {
    let mut heap = Heap::empty();
    let mut ie: u16 = 3;
    assert!(init(&mut heap, &mut ie, 256));
    assert!(!init(&mut heap, &mut ie, 256));
    assert_eq!(ie, 3);
}

#[test]
fn allocation_respects_alignment() {
    let mut heap = Heap::empty();
    let mut ie: u16 = 7;
    assert!(init(&mut heap, &mut ie, 4096));
    let _ = allocate(&mut heap, &mut ie, 3, 1).unwrap();
    let a = allocate(&mut heap, &mut ie, 100, 64).unwrap();
    assert_eq!(a % 64, 0);
    let b = allocate(&mut heap, &mut ie, 10, 256).unwrap();
    assert_eq!(b % 256, 0);
    assert_eq!(ie, 7);
}

#[test]
fn nearly_whole_region_is_handed_over() {
    let mut heap = Heap::empty();
    let mut ie: u16 = 0;
    assert!(init(&mut heap, &mut ie, 1024));
    // room for the request, its alignment and 48 bytes, within 14 bytes of the region
    assert!(allocate(&mut heap, &mut ie, 1024 - 14 - 8 - 48, 8).is_some());
}

#[test]
fn failed_request_leaves_room_for_the_next() {
    let mut heap = Heap::empty();
    let mut ie: u16 = 5;
    assert!(init(&mut heap, &mut ie, 1024));
    let size = 1024 - 14 - 8 - 48;
    assert_eq!(allocate(&mut heap, &mut ie, 4096, 8), None);
    assert!(allocate(&mut heap, &mut ie, size, 8).is_some());
    assert_eq!(allocate(&mut heap, &mut ie, size, 8), None);
    assert_eq!(ie, 5);
}

#[test]
fn mutex_masks_and_restores_interrupts() {
    let mut m = Mutex::new(5u32);
    let mut ie: u16 = 0x0f0f;
    m.lock(&mut ie);
    assert_eq!(ie, 0);
    *m.get_mut() += 1;
    m.unlock(&mut ie);
    assert_eq!(ie, 0x0f0f);
}

#[test]
fn nested_critical_sections_keep_interrupts_disabled() {
    let mut outer = Mutex::new(());
    let mut inner = Mutex::new(());
    let mut ie: u16 = 0x0001;
    outer.lock(&mut ie);
    inner.lock(&mut ie);
    inner.unlock(&mut ie);
    assert_eq!(ie, 0);
    outer.unlock(&mut ie);
    assert_eq!(ie, 0x0001);
}
