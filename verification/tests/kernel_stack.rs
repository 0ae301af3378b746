use minios::memory::frame::{FrameAllocator, FrameError, PAGE_SIZE};
use minios::memory::kernel_stack::{KernelStack, StackError};

const BASE: usize = 0x8040_0000;

fn allocator(frames: usize) -> FrameAllocator<1> {
    FrameAllocator::<1>::new(BASE, BASE + frames * PAGE_SIZE).unwrap()
}

#[test]
fn stack_takes_contiguous_frames_and_gives_them_back() {
    let mut frames = allocator(8);
    let before = frames.stats();
    let mut stack = KernelStack::allocate(&mut frames, 4).unwrap();
    assert_eq!(stack.bottom(), BASE);
    assert_eq!(stack.top(), BASE + 4 * PAGE_SIZE);
    assert_eq!(frames.stats().allocated, 4);
    assert_eq!(stack.release(&mut frames), Ok(()));
    assert_eq!(frames.stats(), before);
}

#[test]
fn stack_that_runs_out_gives_back_what_it_took() {
    let mut frames = allocator(3);
    let before = frames.stats();
    assert!(matches!(KernelStack::allocate(&mut frames, 4), Err(StackError::OutOfFrames)));
    assert_eq!(frames.stats(), before);
    assert_eq!(frames.stats().allocated, 0);
}

#[test]
fn stack_with_a_gap_is_refused_and_rolled_back() {
    let mut frames = allocator(8);
    let _a = frames.allocate().unwrap();
    let b = frames.allocate().unwrap();
    let _c = frames.allocate().unwrap();
    frames.deallocate(b).unwrap();
    let before = frames.stats();
    // The lowest free frames are the second and the fourth: not in a row.
    assert!(matches!(KernelStack::allocate(&mut frames, 2), Err(StackError::NonContiguous)));
    assert_eq!(frames.stats(), before);
    // The gap is still the first frame handed out.
    assert_eq!(frames.allocate().unwrap().start(), BASE + PAGE_SIZE);
}

#[test]
fn refused_release_keeps_the_stack() {
    let mut frames = allocator(8);
    let mut other = FrameAllocator::<1>::new(0x9000_0000, 0x9000_0000 + 8 * PAGE_SIZE).unwrap();
    let mut stack = KernelStack::allocate(&mut frames, 2).unwrap();
    assert_eq!(stack.release(&mut other), Err(FrameError::OutOfRange));
    assert_eq!(stack.bottom(), BASE);
    assert_eq!(stack.top(), BASE + 2 * PAGE_SIZE);
    assert_eq!(stack.release(&mut frames), Ok(()));
    assert_eq!(frames.stats().allocated, 0);
}
