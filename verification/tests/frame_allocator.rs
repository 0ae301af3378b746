use minios::memory::frame::{FrameAllocator, FrameError, FrameStats, PhysFrame};

fn allocator_fixture<const WORDS: usize>(
    base: usize,
    end: usize,
) -> Result<FrameAllocator<WORDS>, FrameError> {
    FrameAllocator::new(base, end)
}

fn forged_frame_fixture(start: usize) -> Result<PhysFrame, FrameError> {
    PhysFrame::from_start(start)
}

#[test]
fn stats_report_all_frames_free_before_allocation() {
    let allocator = allocator_fixture::<1>(0x4000, 0x8000).unwrap();

    assert_eq!(
        allocator.stats(),
        FrameStats {
            total: 4,
            allocated: 0,
            free: 4,
        }
    );
}

#[test]
fn stats_report_one_used_frame_after_allocation() {
    let mut allocator = allocator_fixture::<1>(0x4000, 0x8000).unwrap();
    allocator.allocate().unwrap();

    assert_eq!(
        allocator.stats(),
        FrameStats {
            total: 4,
            allocated: 1,
            free: 3,
        }
    );
}

#[test]
fn rejected_deallocation_does_not_change_stats() {
    let mut allocator = allocator_fixture::<1>(0x4000, 0x8000).unwrap();
    allocator.allocate().unwrap();

    assert_eq!(
        allocator.deallocate(forged_frame_fixture(0x9000).unwrap()),
        Err(FrameError::OutOfRange)
    );
    assert_eq!(
        allocator.stats(),
        FrameStats {
            total: 4,
            allocated: 1,
            free: 3,
        }
    );
}

#[test]
fn stats_restore_free_count_after_deallocation() {
    let mut allocator = allocator_fixture::<1>(0x4000, 0x8000).unwrap();
    let frame = allocator.allocate().unwrap();

    allocator.deallocate(frame).unwrap();

    assert_eq!(
        allocator.stats(),
        FrameStats {
            total: 4,
            allocated: 0,
            free: 4,
        }
    );
}

#[test]
fn allocates_and_reuses_a_frame() {
    let mut allocator = allocator_fixture::<1>(0x4000, 0x8000).unwrap();
    let first = allocator.allocate().unwrap();
    let first_start = first.start();
    let second = allocator.allocate().unwrap();
    assert_eq!(first.start(), 0x4000);
    assert_eq!(second.start(), 0x5000);
    allocator.deallocate(first).unwrap();
    assert_eq!(allocator.allocate().unwrap().start(), first_start);
}

#[test]
fn returns_none_after_exhaustion() {
    let mut allocator = allocator_fixture::<1>(0x4000, 0x6000).unwrap();
    assert_eq!(allocator.allocate().unwrap().start(), 0x4000);
    assert_eq!(allocator.allocate().unwrap().start(), 0x5000);
    assert_eq!(allocator.allocate(), None);
}

#[test]
fn rejects_a_double_free() {
    let mut allocator = allocator_fixture::<1>(0x4000, 0x8000).unwrap();
    let frame = allocator.allocate().unwrap();
    let start = frame.start();
    allocator.deallocate(frame).unwrap();
    assert_eq!(
        allocator.deallocate(forged_frame_fixture(start).unwrap()),
        Err(FrameError::DoubleFree)
    );
}

#[test]
fn rejects_an_out_of_range_frame() {
    let mut allocator = allocator_fixture::<1>(0x4000, 0x8000).unwrap();
    assert_eq!(
        allocator.deallocate(forged_frame_fixture(0x9000).unwrap()),
        Err(FrameError::OutOfRange)
    );
}

#[test]
fn rejects_an_unaligned_frame_start() {
    assert_eq!(forged_frame_fixture(0x4001), Err(FrameError::Unaligned));
}

#[test]
fn rejects_unaligned_bounds() {
    assert_eq!(
        allocator_fixture::<1>(0x4001, 0x8000),
        Err(FrameError::Unaligned)
    );
}

#[test]
fn rejects_an_empty_range() {
    assert_eq!(
        allocator_fixture::<1>(0x4000, 0x4000),
        Err(FrameError::EmptyRange)
    );
}

#[test]
fn rejects_a_range_larger_than_its_bitmap() {
    assert_eq!(
        allocator_fixture::<1>(0x4000, 0x45000),
        Err(FrameError::CapacityExceeded)
    );
}

#[test]
fn frames_below_the_base_are_out_of_range() {
    let mut allocator = allocator_fixture::<1>(0x4000, 0x8000).unwrap();
    assert_eq!(
        allocator.deallocate(forged_frame_fixture(0x3000).unwrap()),
        Err(FrameError::OutOfRange)
    );
}

#[test]
fn a_second_word_of_bitmap_tracks_frames_past_sixty_four() {
    let mut allocator = allocator_fixture::<2>(0x0, 66 * 0x1000).unwrap();
    let mut last = 0;
    for _ in 0..66 {
        last = allocator.allocate().unwrap().start();
    }
    assert_eq!(last, 65 * 0x1000);
    assert_eq!(allocator.allocate(), None);
    allocator
        .deallocate(forged_frame_fixture(64 * 0x1000).unwrap())
        .unwrap();
    assert_eq!(allocator.allocate().unwrap().start(), 64 * 0x1000);
}

#[test]
fn allocate_then_release_restores_the_pool() {
    let mut allocator = allocator_fixture::<1>(0x4000, 0x8000).unwrap();
    let before = allocator.stats();
    let frame = allocator.allocate().unwrap();
    allocator.deallocate(frame).unwrap();
    assert_eq!(allocator.stats(), before);
    assert_eq!(allocator.allocate().unwrap().start(), 0x4000);
}

#[test]
fn stats_follow_any_run_of_calls() {
    let mut frames = allocator_fixture::<1>(0x4000, 0x8000).unwrap();
    let a = frames.allocate().unwrap();
    let b = frames.allocate().unwrap();
    let b_start = b.start();
    assert_eq!(frames.stats(), FrameStats { total: 4, allocated: 2, free: 2 });
    // Refused calls change nothing.
    assert_eq!(frames.deallocate(forged_frame_fixture(0x9000).unwrap()), Err(FrameError::OutOfRange));
    assert_eq!(frames.stats(), FrameStats { total: 4, allocated: 2, free: 2 });
    frames.deallocate(b).unwrap();
    assert_eq!(frames.deallocate(forged_frame_fixture(b_start).unwrap()), Err(FrameError::DoubleFree));
    assert_eq!(frames.stats(), FrameStats { total: 4, allocated: 1, free: 3 });
    let c = frames.allocate().unwrap();
    assert_eq!(c.start(), b_start);
    frames.deallocate(a).unwrap();
    frames.deallocate(c).unwrap();
    assert_eq!(frames.stats(), FrameStats { total: 4, allocated: 0, free: 4 });
}
