use compiler::arena::{alloc_arena_memeory, Arena};

#[test]
fn new_arena_is_zeroed_and_empty() {
    let a = Arena::new(16);
    assert_eq!(a.capacity(), 16);
    assert_eq!(a.offset(), 0);
    assert_eq!(a.buffer(), &[0u8; 16][..]);
}

#[test]
fn fresh_arena_from_free_function() {
    let a = alloc_arena_memeory(1000);
    assert_eq!(a.capacity(), 1000);
    assert_eq!(a.offset(), 0);
    assert!(a.buffer().iter().all(|b| *b == 0));
}

#[test]
fn align_forward_rounds_up_to_the_alignment() {
    let a = Arena::new(0);
    assert_eq!(a.align_forward(13, 8), 16);
    assert_eq!(a.align_forward(16, 8), 16);
    assert_eq!(a.align_forward(0, 4), 0);
    assert_eq!(a.align_forward(1, 1), 1);
    assert_eq!(a.align_forward(17, 16), 32);
}

#[test]
fn allocations_are_aligned_and_copied() {
    let mut a = Arena::new(32);
    let p1 = a.alloc_bytes(&[1, 2, 3], 1);
    assert_eq!(p1, 0);
    assert_eq!(a.offset(), 3);
    let p2 = a.alloc_bytes(&[9, 9], 4);
    assert_eq!(p2, 4);
    assert_eq!(a.offset(), 6);
    assert_eq!(&a.buffer()[0..6], &[1, 2, 3, 0, 9, 9]);
}

#[test]
fn allocations_one_after_another_never_overlap() {
    let mut a = Arena::new(64);
    let mut end = 0;
    for (len, align) in [(3usize, 1usize), (5, 8), (1, 2), (7, 4), (2, 16)] {
        let bytes = vec![len as u8; len];
        let p = a.alloc_bytes(&bytes, align);
        assert!(p >= end);
        assert_eq!(p % align, 0);
        end = p + len;
        assert_eq!(a.offset(), end);
    }
}

#[test]
fn reset_frees_the_buffer_and_keeps_its_bytes() {
    let mut a = Arena::new(8);
    a.alloc_bytes(&[5, 6], 1);
    a.reset();
    assert_eq!(a.offset(), 0);
    assert_eq!(&a.buffer()[0..2], &[5, 6]);
    let p = a.alloc_bytes(&[7], 1);
    assert_eq!(p, 0);
    assert_eq!(a.buffer()[0], 7);
}

#[test]
fn resize_without_memory_allocates_afresh() {
    let mut a = Arena::new(16);
    a.alloc_bytes(&[1], 1);
    let p = a.arena_resize_align(None, 0, 4, 8);
    assert_eq!(p, 8);
    assert_eq!(a.offset(), 12);
    let q = a.arena_resize_align(Some(8), 0, 2, 2);
    assert_eq!(q, 12);
    assert_eq!(a.offset(), 14);
}

#[test]
fn resize_of_the_last_allocation_grows_in_place_and_zeroes() {
    let mut a = Arena::new(16);
    let p = a.alloc_bytes(&[1, 2], 1);
    let r = a.arena_resize_align(Some(p), 2, 4, 1);
    assert_eq!(r, p);
    assert_eq!(a.offset(), 4);
    assert_eq!(&a.buffer()[0..4], &[0, 0, 0, 0]);
}

#[test]
fn resize_of_the_last_allocation_shrinks_in_place() {
    let mut a = Arena::new(16);
    let p = a.alloc_bytes(&[1, 2, 3], 1);
    let r = a.arena_resize_align(Some(p), 3, 2, 1);
    assert_eq!(r, 0);
    assert_eq!(a.offset(), 2);
    assert_eq!(&a.buffer()[0..3], &[1, 2, 3]);
}

#[test]
fn resize_of_an_earlier_allocation_copies_it() {
    let mut a = Arena::new(16);
    let p = a.alloc_bytes(&[1, 2], 1);
    a.alloc_bytes(&[7], 1);
    let r = a.arena_resize_align(Some(p), 2, 3, 1);
    assert_eq!(r, 3);
    assert_eq!(a.offset(), 6);
    assert_eq!(&a.buffer()[0..6], &[1, 2, 7, 1, 2, 0]);
    let s = a.arena_resize_align(Some(0), 2, 1, 2);
    assert_eq!(s, 6);
    assert_eq!(a.offset(), 7);
    assert_eq!(a.buffer()[6], 1);
}

#[test]
fn zeroed_allocations_in_a_row_are_disjoint_and_in_order() {
    let mut a = Arena::new(32);
    a.alloc_bytes(&[9; 32], 1);
    a.reset();
    let p = a.arena_alloc_align(5, 4);
    let q = a.arena_alloc_align(3, 8);
    assert_eq!(p, 0);
    assert_eq!(q, 8);
    assert_eq!(a.offset(), 11);
    assert_eq!(&a.buffer()[0..5], &[0; 5]);
    assert_eq!(&a.buffer()[5..8], &[9; 3]);
    assert_eq!(&a.buffer()[8..11], &[0; 3]);
}
