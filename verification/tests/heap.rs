use minios::memory::heap::{Heap, HeapError, HeapStats};

const REGION: usize = 0x10_0000;

fn fresh_heap() -> Heap {
    let mut heap = Heap::empty();
    heap.init(REGION, 4096).unwrap();
    heap
}

fn layout(heap: &mut Heap, size: usize) -> Result<usize, HeapError> {
    heap.allocate(size, 8)
}

#[test]
fn init_rejects_misaligned_or_tiny_regions() {
    let start = REGION;

    let mut heap = Heap::empty();
    assert_eq!(heap.init(start + 8, 4096), Err(HeapError::Misaligned));
    let mut heap = Heap::empty();
    assert_eq!(heap.init(start, 24), Err(HeapError::Misaligned));
    let mut heap = Heap::empty();
    assert_eq!(heap.init(start, 0), Err(HeapError::EmptyRange));
    let mut heap = Heap::empty();
    assert_eq!(heap.init(start, 16), Ok(()));
}

#[test]
fn alloc_returns_aligned_writable_memory() {
    let mut heap = fresh_heap();

    let ptr = layout(&mut heap, 24).unwrap();
    assert!(ptr % 16 == 0);
    assert!(ptr >= REGION + 16 && ptr + 24 <= REGION + 4096);
}

#[test]
fn alloc_honors_larger_alignment() {
    let mut heap = fresh_heap();

    let ptr = heap.allocate(8, 64).unwrap();
    assert_eq!(ptr % 64, 0);
    heap.dealloc(ptr).unwrap();
}

#[test]
fn exhausted_heap_reports_out_of_memory() {
    let mut heap = fresh_heap();

    let mut ptrs = Vec::new();
    while let Ok(ptr) = layout(&mut heap, 128) {
        ptrs.push(ptr);
    }
    let stats = heap.stats();
    assert_eq!(stats.total, 4096);
    assert_eq!(stats.free, 64);
    assert_eq!(stats.allocated, 4032);
    assert!(matches!(layout(&mut heap, 128), Err(HeapError::OutOfMemory)));

    for ptr in ptrs {
        heap.dealloc(ptr).unwrap();
    }
    let stats = heap.stats();
    assert_eq!(stats.free, 4096);
    assert_eq!(stats.free_blocks, 1);
}

#[test]
fn dealloc_coalesces_adjacent_free_blocks() {
    let mut heap = fresh_heap();

    let a = layout(&mut heap, 64).unwrap();
    let b = layout(&mut heap, 64).unwrap();
    let c = layout(&mut heap, 64).unwrap();
    assert_eq!(heap.stats().free_blocks, 1);

    heap.dealloc(a).unwrap();
    assert_eq!(heap.stats().free_blocks, 2);

    heap.dealloc(b).unwrap();
    assert_eq!(heap.stats().free_blocks, 2);

    heap.dealloc(c).unwrap();
    let stats = heap.stats();
    assert_eq!(stats.free_blocks, 1);
    assert_eq!(stats.free, 4096);
    assert_eq!(stats.allocated, 0);
}

#[test]
fn dealloc_rejects_double_free() {
    let mut heap = fresh_heap();
    let ptr = layout(&mut heap, 64).unwrap();
    heap.dealloc(ptr).unwrap();

    assert!(matches!(
        heap.dealloc(ptr),
        Err(HeapError::DoubleFree) | Err(HeapError::InvalidPointer)
    ));
}

#[test]
fn dealloc_rejects_pointers_outside_the_region() {
    let mut heap = fresh_heap();
    assert_eq!(heap.dealloc(0x1000), Err(HeapError::InvalidPointer));
}

#[test]
fn first_fit_reuses_the_earliest_sufficient_block() {
    let mut heap = fresh_heap();
    let a = layout(&mut heap, 256).unwrap();
    let b = layout(&mut heap, 256).unwrap();
    let _c = layout(&mut heap, 256).unwrap();
    heap.dealloc(b).unwrap();

    let small = layout(&mut heap, 32).unwrap();
    assert_eq!(small, b);
    heap.dealloc(small).unwrap();
    heap.dealloc(a).unwrap();
}

#[test]
fn stats_track_every_transition() {
    let mut heap = fresh_heap();
    assert_eq!(
        heap.stats(),
        HeapStats {
            total: 4096,
            allocated: 0,
            free: 4096,
            free_blocks: 1,
            largest_free: 4096,
        }
    );
    let ptr = layout(&mut heap, 64).unwrap();
    let stats = heap.stats();
    assert_eq!(stats.total, 4096);
    assert_eq!(stats.allocated + stats.free, 4096);
    assert!(stats.largest_free <= stats.free);
    heap.dealloc(ptr).unwrap();
    assert_eq!(heap.stats().allocated, 0);
}

#[test]
fn an_empty_heap_refuses_every_allocation() {
    let mut heap = Heap::empty();
    assert_eq!(heap.allocate(1, 1), Err(HeapError::OutOfMemory));
    assert_eq!(heap.allocate(1, 24), Err(HeapError::Misaligned));
}

#[test]
fn the_first_allocation_sits_right_after_its_header() {
    let mut heap = fresh_heap();
    let ptr = heap.allocate(1, 1).unwrap();
    assert_eq!(ptr, REGION + 16);
    let stats = heap.stats();
    assert_eq!(stats.allocated, 32);
    assert_eq!(stats.free, 4096 - 32);
}

#[test]
fn a_tail_smaller_than_a_granule_joins_the_span() {
    let mut heap = Heap::empty();
    heap.init(REGION, 64).unwrap();
    let ptr = heap.allocate(40, 8).unwrap();
    assert_eq!(ptr, REGION + 16);
    let stats = heap.stats();
    assert_eq!(stats.allocated, 64);
    assert_eq!(stats.free_blocks, 0);
    assert_eq!(heap.allocate(1, 1), Err(HeapError::OutOfMemory));
    heap.dealloc(ptr).unwrap();
    assert_eq!(heap.stats().free, 64);
}

#[test]
fn a_pointer_without_a_header_is_refused() {
    let mut heap = fresh_heap();
    let ptr = heap.allocate(64, 8).unwrap();
    assert_eq!(heap.dealloc(ptr + 16), Err(HeapError::InvalidPointer));
    assert_eq!(heap.dealloc(8), Err(HeapError::InvalidPointer));
    assert_eq!(heap.stats().allocated, 80);
}

#[test]
fn live_allocations_never_overlap() {
    let mut heap = fresh_heap();
    let sizes = [24usize, 1, 100, 16, 200, 48];
    let mut live: Vec<(usize, usize)> = Vec::new();
    for size in sizes {
        let ptr = heap.allocate(size, 32).unwrap();
        live.push((ptr, size));
    }
    // Free one in the middle and refill the gap.
    let (freed, _) = live.remove(2);
    heap.dealloc(freed).unwrap();
    live.push((heap.allocate(64, 16).unwrap(), 64));
    live.push((heap.allocate(8, 16).unwrap(), 8));
    for (i, &(a, la)) in live.iter().enumerate() {
        assert!(a >= REGION + 16 && a + la <= REGION + 4096);
        for &(b, lb) in live.iter().skip(i + 1) {
            // A header of 16 bytes sits below each allocation.
            assert!(a + la <= b - 16 || b + lb <= a - 16, "{a:#x}+{la} overlaps {b:#x}+{lb}");
        }
    }
}
