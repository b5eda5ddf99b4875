use kitsune_kernel::memory::{
    init_frame_allocator, with_frame_allocator, BitmapFrameAllocator, FrameAllocatorWrapper,
    FRAME_SIZE,
};

fn full_words(n: usize) -> Vec<u64> {
    vec![u64::MAX; n]
}

fn count_used(a: &BitmapFrameAllocator) -> usize {
    (0..a.total_frames()).filter(|f| a.is_used(*f)).count()
}

#[test]
fn frames_are_four_kibibytes() {
    assert_eq!(FRAME_SIZE, 4096);
}

#[test]
fn new_allocator_has_every_frame_used() {
    let a = BitmapFrameAllocator::new(full_words(2), 2, 100);
    assert_eq!(a.total_frames(), 100);
    assert_eq!(a.used_frames(), 100);
    assert_eq!(a.next_free(), 0);
    assert!((0..100).all(|f| a.is_used(f)));
}

#[test]
fn exhaustion_after_two_free_frames() {
    let mut a = BitmapFrameAllocator::new(full_words(1), 1, 4);
    a.mark_range_free(0, 2);
    assert!(!a.is_used(0));
    assert!(!a.is_used(1));
    assert!(a.is_used(2));
    assert!(a.is_used(3));
    assert_eq!(a.allocate_frame(), Some(0));
    assert_eq!(a.allocate_frame(), Some(1));
    assert_eq!(a.allocate_frame(), None);
    assert_eq!(a.used_frames(), 4);
}

#[test]
fn used_count_matches_set_bits_through_mixed_calls() {
    let mut a = BitmapFrameAllocator::new(full_words(3), 3, 150);
    assert_eq!(a.used_frames(), count_used(&a));
    a.mark_range_free(10, 50);
    assert_eq!(a.used_frames(), 100);
    assert_eq!(a.used_frames(), count_used(&a));
    a.mark_range_free(40, 40);
    assert_eq!(a.used_frames(), 80);
    assert_eq!(a.used_frames(), count_used(&a));
    a.mark_range_used(0, 20);
    assert_eq!(a.used_frames(), 90);
    assert_eq!(a.used_frames(), count_used(&a));
    let f = a.allocate_frame().unwrap();
    assert_eq!(f, 20);
    assert_eq!(a.used_frames(), 91);
    assert_eq!(a.used_frames(), count_used(&a));
    a.free_frame(f);
    assert_eq!(a.used_frames(), 90);
    a.free_frame(f);
    assert_eq!(a.used_frames(), 90);
    assert_eq!(a.used_frames(), count_used(&a));
}

#[test]
fn marking_is_idempotent() {
    let mut a = BitmapFrameAllocator::new(full_words(1), 1, 64);
    a.mark_range_free(8, 8);
    a.mark_range_free(8, 8);
    assert_eq!(a.used_frames(), 56);
    a.mark_range_used(8, 8);
    a.mark_range_used(8, 8);
    assert_eq!(a.used_frames(), 64);
}

#[test]
fn frames_out_of_range_are_passed_over() {
    let mut a = BitmapFrameAllocator::new(full_words(1), 1, 10);
    a.mark_range_free(8, 100);
    assert_eq!(a.used_frames(), 8);
    assert!(!a.is_used(8));
    assert!(!a.is_used(9));
    assert!(a.is_used(10));
    a.mark_range_free(10, 5);
    a.mark_range_free(usize::MAX, 2);
    a.mark_range_free(3, usize::MAX);
    assert_eq!(a.used_frames(), 3);
    a.mark_range_used(0, usize::MAX);
    assert_eq!(a.used_frames(), 10);
    a.free_frame(10);
    a.free_frame(63);
    assert_eq!(a.used_frames(), 10);
}

#[test]
fn bits_past_the_last_frame_are_never_handed_out() {
    let mut a = BitmapFrameAllocator::new(vec![u64::MAX], 1, 3);
    a.mark_range_free(0, 64);
    assert_eq!(a.allocate_frame(), Some(0));
    assert_eq!(a.allocate_frame(), Some(1));
    assert_eq!(a.allocate_frame(), Some(2));
    assert_eq!(a.allocate_frame(), None);
}

#[test]
fn allocation_never_returns_a_used_frame() {
    let mut a = BitmapFrameAllocator::new(full_words(4), 4, 256);
    a.mark_range_free(5, 3);
    a.mark_range_free(70, 2);
    a.mark_range_free(200, 4);
    let mut seen = Vec::new();
    loop {
        let before: Vec<bool> = (0..256).map(|f| a.is_used(f)).collect();
        match a.allocate_frame() {
            Some(f) => {
                assert!(!before[f]);
                assert!(a.is_used(f));
                assert!(!seen.contains(&f));
                seen.push(f);
            }
            None => {
                assert!(before.iter().all(|u| *u));
                break;
            }
        }
    }
    assert_eq!(seen, vec![5, 6, 7, 70, 71, 200, 201, 202, 203]);
}

#[test]
fn scan_starts_at_the_cursor_and_wraps() {
    let mut a = BitmapFrameAllocator::new(full_words(3), 3, 192);
    a.mark_range_free(130, 1);
    assert_eq!(a.allocate_frame(), Some(130));
    assert_eq!(a.next_free(), 2);
    a.mark_range_free(3, 1);
    a.mark_range_free(140, 1);
    assert_eq!(a.allocate_frame(), Some(140));
    assert_eq!(a.next_free(), 2);
    assert_eq!(a.allocate_frame(), Some(3));
    assert_eq!(a.next_free(), 0);
    assert_eq!(a.allocate_frame(), None);
    assert_eq!(a.next_free(), 0);
}

#[test]
fn wrapper_is_empty_until_initialized() {
    let mut w = FrameAllocatorWrapper::new();
    assert!(!w.is_initialized());
    assert_eq!(w.total_frames(), None);
    assert_eq!(w.allocate_frame(), None);
    assert_eq!(with_frame_allocator(&mut w, |a| a.used_frames()), None);
    let mut a = BitmapFrameAllocator::new(full_words(1), 1, 8);
    a.mark_range_free(2, 1);
    init_frame_allocator(&mut w, a);
    assert!(w.is_initialized());
    assert_eq!(w.total_frames(), Some(8));
    assert_eq!(with_frame_allocator(&mut w, |a| a.used_frames()), Some(7));
    assert_eq!(w.allocate_frame(), Some(2));
    assert_eq!(w.allocate_frame(), None);
    assert_eq!(with_frame_allocator(&mut w, |a| a.used_frames()), Some(8));
    assert_eq!(
        with_frame_allocator(&mut w, |a| {
            a.free_frame(5);
            a.allocate_frame()
        }),
        Some(Some(5))
    );
}
