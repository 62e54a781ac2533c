use qtx::mem::{object_layout_exec, power_of_two, HeapError, HeapPtr, RefCount};

#[test]
fn layout_places_data_after_object() {
    let l = object_layout_exec(24, 8, 16, 8).unwrap();
    assert_eq!((l.size, l.align, l.offset), (40, 8, 24));
    let l = object_layout_exec(20, 4, 9, 8).unwrap();
    assert_eq!((l.size, l.align, l.offset), (40, 8, 24));
    let l = object_layout_exec(17, 16, 1, 1).unwrap();
    assert_eq!((l.size, l.align, l.offset), (32, 16, 17));
    let l = object_layout_exec(0, 1, 0, 1).unwrap();
    assert_eq!((l.size, l.align, l.offset), (0, 1, 0));
}

#[test]
fn layout_matches_std() {
    for &(size, align, ds, da) in &[(24usize, 8usize, 16usize, 8usize), (3, 1, 8, 8), (100, 32, 4, 4), (7, 2, 0, 1)] {
        let (l, off) = std::alloc::Layout::from_size_align(size, align)
            .unwrap()
            .extend(std::alloc::Layout::from_size_align(ds, da).unwrap())
            .unwrap();
        let l = l.pad_to_align();
        let o = object_layout_exec(size, align, ds, da).unwrap();
        assert_eq!((o.size, o.align, o.offset), (l.size(), l.align(), off));
    }
}

#[test]
fn layout_refuses_bad_alignment_and_overflow() {
    assert!(object_layout_exec(8, 3, 8, 8).is_none());
    assert!(object_layout_exec(8, 0, 8, 8).is_none());
    assert!(object_layout_exec(isize::MAX as usize, 1, 8, 8).is_none());
    assert!(object_layout_exec(usize::MAX, 1, 1, 1).is_none());
}

#[test]
fn powers_of_two() {
    assert!(power_of_two(1));
    assert!(power_of_two(64));
    assert!(!power_of_two(0));
    assert!(!power_of_two(12));
}

#[test]
fn heap_requests() {
    assert_eq!(HeapPtr::<u8>::request(5, 16).unwrap(), 5);
    assert_eq!(HeapPtr::<u64>::request(3, 16).unwrap(), 24);
    assert!(matches!(HeapPtr::<()>::request(4, 16), Err(HeapError::ZeroSized)));
    assert!(matches!(HeapPtr::<u64>::request(usize::MAX / 4, 16), Err(HeapError::Overflow)));
    assert!(matches!(HeapPtr::<u64>::request(1, 4), Err(HeapError::Unaligned)));
}

#[test]
fn heap_pointer_keeps_address() {
    assert!(HeapPtr::<u8>::adopt(0, 4).is_none());
    let p = HeapPtr::<u8>::adopt(4096, 4).unwrap();
    assert_eq!(p.get(), 4096);
    assert_eq!(p.into_raw(), 4096);
}

#[test]
fn reference_count() {
    let mut c = RefCount::new(0);
    c.increase_ref();
    c.increase_ref();
    assert_eq!(c.get(), 2);
    assert_eq!(c.decrease_ref(), 1);
    assert_eq!(c.decrease_ref(), 0);
}

#[test]
fn layout_refuses_bad_data_layout() {
    assert!(object_layout_exec(8, 8, 8, 3).is_none());
    assert!(object_layout_exec(8, 8, isize::MAX as usize, 1).is_none());
}

#[test]
fn layout_keeps_data_inside_the_block() {
    for &(size, align, ds, da) in &[(1usize, 1usize, 24usize, 8usize), (33, 16, 2, 2), (64, 64, 1, 32)] {
        let l = object_layout_exec(size, align, ds, da).unwrap();
        assert!(l.offset >= size);
        assert_eq!(l.offset % da, 0);
        assert!(l.offset + ds <= l.size);
        assert_eq!(l.size % l.align, 0);
    }
}
