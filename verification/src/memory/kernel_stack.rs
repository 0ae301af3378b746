//! The kernel stack of a process: physically contiguous frames taken one by
//! one from the frame allocator. A stack that cannot be had whole gives back
//! every frame it took, so a failed spawn leaves the allocator as it was.

use vstd::prelude::*;
use crate::memory::frame::{
    FrameAllocator, FrameError, FramePool, PAGE_SIZE, PhysFrame, first_free, frame_address,
    lemma_first_free, release_error,
};

verus! {

/// Why a kernel stack could not be had.
#[derive(Debug, Clone, Copy, PartialEq, Eq, Structural)]
pub enum StackError {
    /// The allocator ran out before the stack was whole.
    OutOfFrames,
    /// A frame did not follow the one before it.
    NonContiguous,
}

/// What taking the remaining `pages - k` frames of a stack from `used`
/// gives, the stack's first frame being at index `bottom`: each frame is the
/// lowest free one and must follow the one before it.
pub open spec fn stack_step(used: Seq<bool>, pages: nat, k: nat, bottom: int) -> Result<int, StackError>
    decreases pages - k,
{
    if k >= pages {
        Ok(bottom)
    } else {
        let f = first_free(used);
        if f >= used.len() {
            Err(StackError::OutOfFrames)
        } else if k > 0 && f != bottom + k {
            Err(StackError::NonContiguous)
        } else {
            stack_step(used.update(f, true), pages, k + 1, if k == 0 {
                f
            } else {
                bottom
            })
        }
    }
}

/// The index of the first frame of a stack of `pages` frames taken from
/// `used`, or why there is none.
pub open spec fn stack_outcome(used: Seq<bool>, pages: nat) -> Result<int, StackError> {
    stack_step(used, pages, 0, 0)
}

/// `used` with the frames at `ids` marked as handed out.
pub open spec fn with_taken(used: Seq<bool>, ids: Seq<int>) -> Seq<bool> {
    Seq::new(used.len(), |i: int| used[i] || ids.contains(i))
}

/// The index of the frame that starts at `start` in `pool`.
pub open spec fn index_in(pool: FramePool, start: nat) -> int {
    (start - pool.base) / (PAGE_SIZE as int)
}

/// A kernel stack: `pages` frames, each right after the one before.
pub struct KernelStack {
    frames: Vec<PhysFrame>,
}

impl View for KernelStack {
    type V = Seq<nat>;

    /// The start addresses of the frames, lowest first.
    closed spec fn view(&self) -> Seq<nat> {
        Seq::new(self.frames@.len(), |i: int| self.frames@[i]@)
    }
}

impl KernelStack {
    #[verifier::type_invariant]
    closed spec fn contiguous(self) -> bool {
        &&& forall|i: int| 0 <= i < self.frames@.len() ==> (#[trigger] self.frames@[i])@ == self.frames@[0]@ + i
            * PAGE_SIZE
        &&& self.frames@.len() > 0 ==> self.frames@[0]@ + self.frames@.len() * PAGE_SIZE <= usize::MAX
    }

    /// The lowest address of the stack.
    pub fn bottom(&self) -> (r: usize)
        requires
            self@.len() > 0,
        ensures
            r == self@[0],
    {
        self.frames[0].start()
    }

    /// The address just above the stack.
    pub fn top(&self) -> (r: usize)
        requires
            self@.len() > 0,
        ensures
            r == self@[0] + self@.len() * PAGE_SIZE,
    {
        proof {
            use_type_invariant(self);
        }
        let last = self.frames.len() - 1;
        assert(self.frames@[last as int]@ == self.frames@[0]@ + last * PAGE_SIZE);
        self.frames[last].start() + PAGE_SIZE
    }

    /// Takes `pages` frames from `allocator`, the lowest free ones, for a
    /// stack. When the allocator runs out, or a frame does not follow the one
    /// before it, every frame taken so far goes back and the allocator is as
    /// it was.
    pub fn allocate<const WORDS: usize>(allocator: &mut FrameAllocator<WORDS>, pages: usize) -> (r:
        Result<Self, StackError>)
        requires
            old(allocator).wf(),
        ensures
            final(allocator).wf(),
            match stack_outcome(old(allocator).view().used, pages as nat) {
                Err(e) => r == Err::<Self, StackError>(e)
                    && final(allocator).view() == old(allocator).view(),
                Ok(bottom) => r matches Ok(stack) && stack@.len() == pages
                    && (forall|i: int| 0 <= i < pages
                        ==> #[trigger] stack@[i] == frame_address(old(allocator).view(), bottom + i))
                    && final(allocator).view().base == old(allocator).view().base
                    && final(allocator).view().used == with_taken(
                        old(allocator).view().used,
                        Seq::new(pages as nat, |i: int| bottom + i),
                    ),
            },
    {
        let ghost pool = allocator.view();
        proof {
            allocator.lemma_pool_shape();
            assert(pool == old(allocator).view());
        }
        let mut frames: Vec<PhysFrame> = Vec::new();
        let ghost mut ids: Seq<int> = Seq::empty();
        let ghost mut bottom: int = 0;
        let mut index: usize = 0;
        while index < pages
            invariant
                pool == old(allocator).view(),
                allocator.wf(),
                allocator.view().base == pool.base,
                pool.base % PAGE_SIZE as nat == 0,
                index <= pages,
                frames@.len() == index,
                ids.len() == index,
                forall|j: int| 0 <= j < index ==> ids[j] == bottom + j,
                forall|j: int| 0 <= j < index ==> 0 <= #[trigger] ids[j] < pool.used.len(),
                forall|j: int| 0 <= j < index ==> !pool.used[#[trigger] ids[j]],
                forall|j: int| 0 <= j < index ==> (#[trigger] frames@[j])@ == frame_address(pool, ids[j]),
                allocator.view().used == with_taken(pool.used, ids),
                stack_outcome(pool.used, pages as nat) == stack_step(
                    allocator.view().used,
                    pages as nat,
                    index as nat,
                    bottom,
                ),
            decreases pages - index,
        {
            let ghost cur = allocator.view().used;
            proof {
                lemma_first_free(cur);
            }
            match allocator.allocate() {
                None => {
                    assert(stack_outcome(pool.used, pages as nat) == Err::<int, StackError>(
                        StackError::OutOfFrames,
                    ));
                    Self::give_back(allocator, frames, Ghost(pool), Ghost(ids));
                    return Err(StackError::OutOfFrames);
                },
                Some(frame) => {
                    let ghost f = first_free(cur);
                    proof {
                        assert(!cur[f]);
                        assert(!pool.used[f]) by {
                            assert(cur[f] == (pool.used[f] || ids.contains(f)));
                        }
                        assert(!ids.contains(f));
                        assert forall|x: int| 0 <= x < cur.len() implies #[trigger] with_taken(
                            pool.used,
                            ids.push(f),
                        )[x] == cur.update(f, true)[x] by {
                            vstd::seq_lib::lemma_seq_contains_after_push(ids, f, x);
                        }
                        assert(with_taken(pool.used, ids.push(f)) =~= cur.update(f, true));
                    }
                    let start = frame.start();
                    let contiguous = if index == 0 {
                        true
                    } else {
                        let first = frames[0].start();
                        start >= first && (start - first) % PAGE_SIZE == 0 && (start - first)
                            / PAGE_SIZE == index
                    };
                    proof {
                        if index > 0 {
                            let first = frames@[0]@;
                            assert(first == pool.base + ids[0] * PAGE_SIZE);
                            assert(start == pool.base + f * PAGE_SIZE);
                            assert(contiguous == (f == bottom + index)) by (nonlinear_arith)
                                requires
                                    first == pool.base + bottom * 4096,
                                    start == pool.base + f * 4096,
                                    contiguous == (start >= first && (start - first) % 4096 == 0
                                        && (start - first) / 4096 == index),
                                    f >= 0,
                                    bottom >= 0,
                            ;
                        }
                        if index == 0 {
                            bottom = f;
                        }
                        ids = ids.push(f);
                    }
                    frames.push(frame);
                    if !contiguous {
                        assert(stack_outcome(pool.used, pages as nat) == Err::<int, StackError>(
                            StackError::NonContiguous,
                        ));
                        Self::give_back(allocator, frames, Ghost(pool), Ghost(ids));
                        return Err(StackError::NonContiguous);
                    }
                },
            }
            index = index + 1;
        }
        proof {
            assert(ids =~= Seq::new(pages as nat, |i: int| bottom + i));
            if pages > 0 {
                assert(bottom + pages <= pool.used.len()) by {
                    assert(ids[pages - 1] == bottom + pages - 1);
                }
                assert(pool.base + (bottom + pages) * 4096 <= pool.base + pool.used.len() * 4096)
                    by (nonlinear_arith)
                    requires
                        bottom + pages <= pool.used.len(),
                ;
            }
        }
        let stack = KernelStack { frames };
        Ok(stack)
    }

    /// Gives the frames at `ids` back to `allocator`, the last one first;
    /// afterwards the allocator is as it was in `pool`.
    fn give_back<const WORDS: usize>(
        allocator: &mut FrameAllocator<WORDS>,
        frames: Vec<PhysFrame>,
        pool: Ghost<FramePool>,
        ids: Ghost<Seq<int>>,
    )
        requires
            old(allocator).wf(),
            old(allocator).view().base == pool@.base,
            pool@.base % PAGE_SIZE as nat == 0,
            frames@.len() == ids@.len(),
            forall|j: int| 0 <= j < ids@.len() ==> 0 <= #[trigger] ids@[j] < pool@.used.len(),
            forall|j: int| 0 <= j < ids@.len() ==> !pool@.used[#[trigger] ids@[j]],
            forall|j: int| 0 <= j < ids@.len() ==> (#[trigger] frames@[j])@ == frame_address(pool@, ids@[j]),
            forall|j: int, k: int| 0 <= j < k < ids@.len() ==> ids@[j] != ids@[k],
            old(allocator).view().used == with_taken(pool@.used, ids@),
        ensures
            final(allocator).wf(),
            final(allocator).view() == pool@,
    {
        let mut frames = frames;
        let ghost mut n: int = ids@.len() as int;
        assert(ids@.take(n) =~= ids@);
        while frames.len() > 0
            invariant
                allocator.wf(),
                allocator.view().base == pool@.base,
                pool@.base % PAGE_SIZE as nat == 0,
                0 <= n <= ids@.len(),
                frames@.len() == n,
                forall|j: int| 0 <= j < ids@.len() ==> 0 <= #[trigger] ids@[j] < pool@.used.len(),
                forall|j: int| 0 <= j < ids@.len() ==> !pool@.used[#[trigger] ids@[j]],
                forall|j: int| 0 <= j < n ==> (#[trigger] frames@[j])@ == frame_address(pool@, ids@[j]),
                forall|j: int, k: int| 0 <= j < k < ids@.len() ==> ids@[j] != ids@[k],
                allocator.view().used == with_taken(pool@.used, ids@.take(n)),
            decreases frames@.len(),
        {
            let ghost before = allocator.view().used;
            let frame = frames.pop().unwrap();
            let ghost i = ids@[n - 1];
            proof {
                let start = frame@;
                assert(start == pool@.base + i * 4096);
                assert(start % 4096 == 0 && (start - pool@.base) / 4096 == i) by (nonlinear_arith)
                    requires
                        start == pool@.base + i * 4096,
                        pool@.base % 4096 == 0,
                        i >= 0,
                ;
                assert(ids@.take(n).contains(i)) by {
                    assert(ids@.take(n)[n - 1] == i);
                }
                assert(before[i]);
            }
            let released = allocator.deallocate(frame);
            proof {
                assert(released is Ok);
                assert forall|x: int| 0 <= x < before.len() implies #[trigger] before.update(i, false)[x]
                    == with_taken(pool@.used, ids@.take(n - 1))[x] by {
                    if x == i {
                        if ids@.take(n - 1).contains(i) {
                            let w = choose|w: int| 0 <= w < n - 1 && #[trigger] ids@.take(n - 1)[w] == i;
                            assert(ids@[w] == ids@[n - 1]);
                        }
                    } else {
                        if ids@.take(n).contains(x) {
                            let w = choose|w: int| 0 <= w < n && #[trigger] ids@.take(n)[w] == x;
                            assert(w != n - 1);
                            assert(ids@.take(n - 1)[w] == x);
                        }
                        if ids@.take(n - 1).contains(x) {
                            let w = choose|w: int| 0 <= w < n - 1 && #[trigger] ids@.take(n - 1)[w] == x;
                            assert(ids@.take(n)[w] == x);
                        }
                    }
                }
                assert(allocator.view().used =~= with_taken(pool@.used, ids@.take(n - 1)));
                n = n - 1;
            }
        }
        proof {
            assert(allocator.view().used =~= pool@.used) by {
                assert(ids@.take(0) =~= Seq::<int>::empty());
            }
        }
    }

    /// Gives the frames back to `allocator`, the top one first. A frame that
    /// the allocator refuses stays in the stack with the ones below it, and
    /// its error is returned.
    pub fn release<const WORDS: usize>(&mut self, allocator: &mut FrameAllocator<WORDS>) -> (r: Result<(), FrameError>)
        requires
            old(allocator).wf(),
        ensures
            final(allocator).wf(),
            final(allocator).view().base == old(allocator).view().base,
            ({
                let out = release_from(old(allocator).view(), old(self)@);
                &&& final(allocator).view().used == out.1
                &&& final(self)@ == old(self)@.take(out.2 as int)
                &&& r == match out.0 {
                    None => Ok::<(), FrameError>(()),
                    Some(e) => Err::<(), FrameError>(e),
                }
            }),
    {
        proof {
            use_type_invariant(&*self);
        }
        let ghost start_frames = self@;
        let mut frames: Vec<PhysFrame> = Vec::new();
        core::mem::swap(&mut frames, &mut self.frames);
        assert(Seq::new(frames@.len(), |i: int| frames@[i]@) =~= start_frames);
        assert(start_frames.take(start_frames.len() as int) =~= start_frames);
        while frames.len() > 0
            invariant
                allocator.wf(),
                allocator.view().base == old(allocator).view().base,
                Seq::new(frames@.len(), |i: int| frames@[i]@) == start_frames.take(frames@.len() as int),
                frames@.len() <= start_frames.len(),
                release_from(old(allocator).view(), start_frames) == release_from(
                    allocator.view(),
                    start_frames.take(frames@.len() as int),
                ),
                start_frames == old(self)@,
                forall|i: int| 0 <= i < frames@.len() ==> (#[trigger] frames@[i])@ == start_frames[0] + i
                    * PAGE_SIZE,
                frames@.len() > 0 ==> start_frames[0] + frames@.len() * PAGE_SIZE <= usize::MAX,
                self.frames@.len() == 0,
            decreases frames@.len(),
        {
            let ghost n = frames@.len() as int;
            let frame = frames.pop().unwrap();
            proof {
                assert(start_frames.take(n).drop_last() =~= start_frames.take(n - 1));
                assert(start_frames.take(n).last() == frame@);
                assert(Seq::new(frames@.len(), |i: int| frames@[i]@) =~= start_frames.take(n - 1));
            }
            match allocator.deallocate_recoverable(frame) {
                Ok(()) => {},
                Err((error, frame)) => {
                    frames.push(frame);
                    proof {
                        assert(Seq::new(frames@.len(), |i: int| frames@[i]@) =~= start_frames.take(n));
                    }
                    self.frames = frames;
                    return Err(error);
                },
            }
        }
        proof {
            assert(start_frames.take(0) =~= Seq::<nat>::empty());
        }
        self.frames = frames;
        Ok(())
    }
}


/// Giving back the frames at `starts` to `pool`, the last first: the first
/// refusal met, if any, the books afterwards, and how many frames are kept.
pub open spec fn release_from(pool: FramePool, starts: Seq<nat>) -> (Option<FrameError>, Seq<bool>, nat)
    decreases starts.len(),
{
    if starts.len() == 0 {
        (None, pool.used, 0)
    } else {
        match release_error(pool, starts.last()) {
            Some(e) => (Some(e), pool.used, starts.len()),
            None => release_from(
                FramePool {
                    base: pool.base,
                    used: pool.used.update(index_in(pool, starts.last()), false),
                },
                starts.drop_last(),
            ),
        }
    }
}

/// The frames `[bottom, bottom + k)` of `pool`, as start addresses.
pub open spec fn stack_starts(pool: FramePool, bottom: int, k: nat) -> Seq<nat> {
    Seq::new(k, |i: int| frame_address(pool, bottom + i) as nat)
}

/// The indices `[bottom, bottom + k)`.
pub open spec fn stack_ids(bottom: int, k: nat) -> Seq<int> {
    Seq::new(k, |i: int| bottom + i)
}

proof fn lemma_with_taken_step(used: Seq<bool>, bottom: int, k: nat)
    requires
        0 <= bottom,
        bottom + k < used.len(),
        !used[bottom + k],
    ensures
        with_taken(used, stack_ids(bottom, k)).update(bottom + k, true) == with_taken(
            used,
            stack_ids(bottom, k + 1),
        ),
        with_taken(used, stack_ids(bottom, k + 1)).update(bottom + k, false) == with_taken(
            used,
            stack_ids(bottom, k),
        ),
{
    let a = with_taken(used, stack_ids(bottom, k));
    let b = with_taken(used, stack_ids(bottom, k + 1));
    assert forall|x: int| 0 <= x < used.len() implies #[trigger] a.update(bottom + k, true)[x] == b[x]
        && b.update(bottom + k, false)[x] == a[x] by {
        if stack_ids(bottom, k + 1).contains(x) {
            let w = choose|w: int| 0 <= w < k + 1 && #[trigger] stack_ids(bottom, k + 1)[w] == x;
            if w < k {
                assert(stack_ids(bottom, k)[w] == x);
            }
        }
        if stack_ids(bottom, k).contains(x) {
            let w = choose|w: int| 0 <= w < k && #[trigger] stack_ids(bottom, k)[w] == x;
            assert(stack_ids(bottom, k + 1)[w] == x);
        }
        if x == bottom + k {
            assert(stack_ids(bottom, k + 1)[k as int] == x);
        }
    }
    assert(a.update(bottom + k, true) =~= b);
    assert(b.update(bottom + k, false) =~= a);
}

/// What a successful stack allocation takes: `pages` frames in a row from
/// `bottom` on, all free before.
proof fn lemma_stack_step_ok(used0: Seq<bool>, used: Seq<bool>, pages: nat, k: nat, bottom: int)
    requires
        k <= pages,
        k > 0 ==> 0 <= bottom && bottom + k <= used0.len(),
        k > 0 ==> forall|x: int| bottom <= x < bottom + k ==> !used0[x],
        used == with_taken(used0, stack_ids(bottom, k)),
        k == 0 ==> used == used0,
    ensures
        stack_step(used, pages, k, bottom) matches Ok(b) ==> pages > 0 ==> {
            &&& 0 <= b && b + pages <= used0.len()
            &&& forall|x: int| b <= x < b + pages ==> !used0[x]
            &&& k > 0 ==> b == bottom
        },
    decreases pages - k,
{
    if k < pages {
        let f = first_free(used);
        crate::memory::frame::lemma_first_free(used);
        if f < used.len() && !(k > 0 && f != bottom + k) {
            let next_bottom = if k == 0 {
                f
            } else {
                bottom
            };
            assert(!used[f]);
            assert(!used0[f]);
            if k == 0 {
                assert(stack_ids(f, 0) =~= Seq::<int>::empty());
                assert(with_taken(used0, Seq::<int>::empty()) =~= used0);
            }
            lemma_with_taken_step(used0, next_bottom, k);
            lemma_stack_step_ok(used0, used.update(f, true), pages, k + 1, next_bottom);
        }
    }
}

proof fn lemma_release_taken(pool: FramePool, bottom: int, k: nat)
    requires
        pool.base % PAGE_SIZE as nat == 0,
        0 <= bottom,
        bottom + k <= pool.used.len(),
        forall|x: int| bottom <= x < bottom + k ==> !pool.used[x],
    ensures
        release_from(
            FramePool { base: pool.base, used: with_taken(pool.used, stack_ids(bottom, k)) },
            stack_starts(pool, bottom, k),
        ) == (None::<FrameError>, pool.used, 0nat),
    decreases k,
{
    let taken = FramePool { base: pool.base, used: with_taken(pool.used, stack_ids(bottom, k)) };
    if k == 0 {
        assert(stack_ids(bottom, 0) =~= Seq::<int>::empty());
        assert(with_taken(pool.used, Seq::<int>::empty()) =~= pool.used);
    } else {
        let top = bottom + k - 1;
        let start = stack_starts(pool, bottom, k).last();
        assert(start == pool.base + top * 4096);
        assert(start % 4096 == 0 && (start - pool.base) / 4096 == top) by (nonlinear_arith)
            requires
                start == pool.base + top * 4096,
                pool.base % 4096 == 0,
                top >= 0,
        ;
        assert(stack_ids(bottom, k)[k - 1] == top);
        assert(taken.used[top]);
        lemma_with_taken_step(pool.used, bottom, (k - 1) as nat);
        assert(stack_starts(pool, bottom, k).drop_last() =~= stack_starts(pool, bottom, (k - 1) as nat));
        lemma_release_taken(pool, bottom, (k - 1) as nat);
    }
}

/// Giving a stack back right after taking it is accepted frame by frame and
/// leaves the allocator's books as they were before the stack was taken.
pub proof fn lemma_release_after_allocate(pool: FramePool, pages: nat)
    requires
        pool.base % PAGE_SIZE as nat == 0,
        stack_outcome(pool.used, pages) is Ok,
    ensures
        ({
            let bottom = stack_outcome(pool.used, pages)->Ok_0;
            release_from(
                FramePool { base: pool.base, used: with_taken(pool.used, stack_ids(bottom, pages)) },
                stack_starts(pool, bottom, pages),
            ) == (None::<FrameError>, pool.used, 0nat)
        }),
{
    let bottom = stack_outcome(pool.used, pages)->Ok_0;
    assert(stack_ids(0, 0) =~= Seq::<int>::empty());
    assert(with_taken(pool.used, Seq::<int>::empty()) =~= pool.used);
    lemma_stack_step_ok(pool.used, pool.used, pages, 0, 0);
    if pages > 0 {
        lemma_release_taken(pool, bottom, pages);
    } else {
        assert(stack_ids(bottom, 0) =~= Seq::<int>::empty());
        assert(stack_starts(pool, bottom, 0) =~= Seq::<nat>::empty());
    }
}

} // verus!
