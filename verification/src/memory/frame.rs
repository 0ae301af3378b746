//! A bitmap allocator of 4 KiB physical page frames, one bit per frame.

use vstd::prelude::*;

verus! {

pub const PAGE_SIZE: usize = 4096;

pub const WORD_BITS: usize = 64;

/// The one value that stands for a physical page handed out by an allocator.
/// It can be neither cloned nor copied, so a page has one owner.
#[derive(Debug, PartialEq, Eq)]
pub struct PhysFrame(usize);

#[derive(Debug, Clone, Copy, PartialEq, Eq, Structural)]
pub enum FrameError {
    EmptyRange,
    Unaligned,
    CapacityExceeded,
    OutOfRange,
    DoubleFree,
}

#[derive(Debug, Clone, Copy, PartialEq, Eq, Structural)]
pub struct FrameStats {
    pub total: usize,
    pub allocated: usize,
    pub free: usize,
}

impl View for PhysFrame {
    type V = nat;

    closed spec fn view(&self) -> nat {
        self.0 as nat
    }
}

impl PhysFrame {
    /// The frame that starts at `start`, which must lie on a page boundary.
    /// The caller owns that page alone from then on.
    pub fn from_start(start: usize) -> (r: Result<Self, FrameError>)
        ensures
            start % PAGE_SIZE != 0 ==> r == Err::<Self, FrameError>(FrameError::Unaligned),
            start % PAGE_SIZE == 0 ==> (r matches Ok(f) && f@ == start),
    {
        if start % PAGE_SIZE != 0 {
            return Err(FrameError::Unaligned);
        }
        Ok(PhysFrame(start))
    }

    pub fn start(&self) -> (r: usize)
        ensures
            r == self@,
    {
        self.0
    }
}

/// Whether bit `i` of the bitmap `words` is set.
pub open spec fn bit_of(words: Seq<u64>, i: int) -> bool {
    (words[i / WORD_BITS as int] >> ((i % WORD_BITS as int) as u64)) & 1 == 1
}

/// The number of `true` entries of `s`.
pub open spec fn count_used(s: Seq<bool>) -> nat
    decreases s.len(),
{
    if s.len() == 0 {
        0
    } else {
        count_used(s.drop_last()) + if s.last() {
            1nat
        } else {
            0nat
        }
    }
}

/// The first free frame of `used`, or its length when every frame is in use.
pub open spec fn first_free(used: Seq<bool>) -> int
    decreases used.len(),
{
    if used.len() == 0 {
        0
    } else if !used[0] {
        0
    } else {
        1 + first_free(used.drop_first())
    }
}

/// The frames an allocator manages: the first frame's address, and for each
/// frame in address order whether it is handed out.
pub struct FramePool {
    pub base: nat,
    pub used: Seq<bool>,
}

/// Owns the frames of one page-aligned range, tracking each in one bitmap bit.
/// It cannot be cloned: two copies could hand out the same page.
#[derive(Debug, PartialEq, Eq)]
pub struct FrameAllocator<const WORDS: usize> {
    base: usize,
    frame_count: usize,
    allocated: usize,
    bitmap: [u64; WORDS],
}

/// The number of frames a bitmap of `words` words can track, saturating.
pub open spec fn capacity(words: usize) -> int {
    if words * WORD_BITS > usize::MAX {
        usize::MAX as int
    } else {
        words * WORD_BITS
    }
}

/// Why `base..end` cannot be managed by a bitmap of `words` words, if it cannot.
pub open spec fn range_error(base: usize, end: usize, words: usize) -> Option<FrameError> {
    if base % PAGE_SIZE != 0 || end % PAGE_SIZE != 0 {
        Some(FrameError::Unaligned)
    } else if base >= end {
        Some(FrameError::EmptyRange)
    } else if (end - base) / (PAGE_SIZE as int) > capacity(words) {
        Some(FrameError::CapacityExceeded)
    } else {
        None
    }
}

/// Why freeing the frame at `start` is refused, if it is.
pub open spec fn release_error(pool: FramePool, start: nat) -> Option<FrameError> {
    if start % PAGE_SIZE as nat != 0 {
        Some(FrameError::Unaligned)
    } else if start < pool.base || (start - pool.base) / (PAGE_SIZE as int) >= pool.used.len() {
        Some(FrameError::OutOfRange)
    } else if !pool.used[(start - pool.base) / (PAGE_SIZE as int)] {
        Some(FrameError::DoubleFree)
    } else {
        None
    }
}

/// The address of frame `i` of `pool`.
pub open spec fn frame_address(pool: FramePool, i: int) -> int {
    pool.base + i * PAGE_SIZE
}

proof fn lemma_bit_test(w: u64, b: u64)
    requires
        b < 64,
    ensures
        (w & (1u64 << b) == 0) == !((w >> b) & 1 == 1),
{
    assert((w & (1u64 << b) == 0) == !((w >> b) & 1 == 1)) by (bit_vector)
        requires
            b < 64,
    ;
}

proof fn lemma_bit_set(w: u64, b: u64, c: u64)
    requires
        b < 64,
        c < 64,
    ensures
        ((w | (1u64 << b)) >> c) & 1 == if c == b {
            1u64
        } else {
            (w >> c) & 1
        },
{
    assert(((w | (1u64 << b)) >> c) & 1 == if c == b {
        1u64
    } else {
        (w >> c) & 1
    }) by (bit_vector)
        requires
            b < 64,
            c < 64,
    ;
}

proof fn lemma_bit_clear(w: u64, b: u64, c: u64)
    requires
        b < 64,
        c < 64,
    ensures
        ((w & !(1u64 << b)) >> c) & 1 == if c == b {
            0u64
        } else {
            (w >> c) & 1
        },
{
    assert(((w & !(1u64 << b)) >> c) & 1 == if c == b {
        0u64
    } else {
        (w >> c) & 1
    }) by (bit_vector)
        requires
            b < 64,
            c < 64,
    ;
}

proof fn lemma_zero_bits(c: u64)
    requires
        c < 64,
    ensures
        (0u64 >> c) & 1 == 0,
{
    assert((0u64 >> c) & 1 == 0) by (bit_vector);
}

pub proof fn lemma_count_bounded(s: Seq<bool>)
    ensures
        count_used(s) <= s.len(),
    decreases s.len(),
{
    if s.len() > 0 {
        lemma_count_bounded(s.drop_last());
    }
}

pub proof fn lemma_count_update(s: Seq<bool>, i: int, v: bool)
    requires
        0 <= i < s.len(),
    ensures
        count_used(s.update(i, v)) == count_used(s) - (if s[i] {
            1int
        } else {
            0int
        }) + (if v {
            1int
        } else {
            0int
        }),
    decreases s.len(),
{
    let t = s.update(i, v);
    if i == s.len() - 1 {
        assert(t.drop_last() =~= s.drop_last());
    } else {
        assert(t.drop_last() =~= s.drop_last().update(i, v));
        lemma_count_update(s.drop_last(), i, v);
    }
}

proof fn lemma_count_none(n: nat)
    ensures
        count_used(Seq::new(n, |i: int| false)) == 0,
    decreases n,
{
    if n > 0 {
        assert(Seq::new(n, |i: int| false).drop_last() =~= Seq::new((n - 1) as nat, |i: int| false));
        lemma_count_none((n - 1) as nat);
    }
}

pub proof fn lemma_first_free(used: Seq<bool>)
    ensures
        0 <= first_free(used) <= used.len(),
        first_free(used) < used.len() ==> !used[first_free(used)],
        forall|j: int| 0 <= j < first_free(used) ==> used[j],
    decreases used.len(),
{
    if used.len() > 0 && used[0] {
        let rest = used.drop_first();
        lemma_first_free(rest);
        assert forall|j: int| 0 <= j < first_free(used) implies used[j] by {
            if j > 0 {
                assert(used[j] == rest[j - 1]);
            }
        }
    }
}

proof fn lemma_first_free_at(used: Seq<bool>, i: int)
    requires
        0 <= i <= used.len(),
        forall|j: int| 0 <= j < i ==> used[j],
        i == used.len() || !used[i],
    ensures
        first_free(used) == i,
    decreases i,
{
    if i > 0 {
        let rest = used.drop_first();
        assert forall|j: int| 0 <= j < i - 1 implies rest[j] by {
            assert(used[j + 1] == rest[j]);
        }
        if i < used.len() {
            assert(rest[i - 1] == used[i]);
        }
        lemma_first_free_at(rest, i - 1);
    }
}

impl<const WORDS: usize> FrameAllocator<WORDS> {
    /// The frames this allocator manages and which of them are handed out.
    pub closed spec fn view(&self) -> FramePool {
        FramePool {
            base: self.base as nat,
            used: Seq::new(self.frame_count as nat, |i: int| bit_of(self.bitmap@, i)),
        }
    }

    /// The bookkeeping agrees with the bitmap, and every frame lies in `usize`.
    pub closed spec fn wf(&self) -> bool {
        &&& self.base % PAGE_SIZE == 0
        &&& 0 < self.frame_count <= WORDS * WORD_BITS
        &&& self.base + self.frame_count * PAGE_SIZE <= usize::MAX
        &&& self.allocated == count_used(self.view().used)
    }

    /// An allocator of the frames of `base..end`, none handed out. Both ends
    /// must lie on page boundaries, the range must not be empty, and the bitmap
    /// must hold one bit per frame. The caller hands the range over: nothing
    /// else may own or manage those pages while the allocator lives.
    pub fn new(base: usize, end: usize) -> (r: Result<Self, FrameError>)
        ensures
            match range_error(base, end, WORDS) {
                Some(e) => r == Err::<Self, FrameError>(e),
                None => (r matches Ok(a) && a.wf() && a.view().base == base && a.view().used
                    == Seq::new(((end - base) / (PAGE_SIZE as int)) as nat, |i: int| false)),
            },
    {
        if base % PAGE_SIZE != 0 || end % PAGE_SIZE != 0 {
            return Err(FrameError::Unaligned);
        }
        if base >= end {
            return Err(FrameError::EmptyRange);
        }
        let frame_count = (end - base) / PAGE_SIZE;
        let capacity = if WORDS > usize::MAX / WORD_BITS {
            usize::MAX
        } else {
            WORDS * WORD_BITS
        };
        proof {
            if WORDS > usize::MAX / WORD_BITS {
                assert(WORDS * WORD_BITS > usize::MAX) by (nonlinear_arith)
                    requires
                        WORDS > usize::MAX / WORD_BITS,
                        WORD_BITS == 64,
                ;
            } else {
                assert(WORDS * WORD_BITS <= usize::MAX) by (nonlinear_arith)
                    requires
                        WORDS <= usize::MAX / WORD_BITS,
                        WORD_BITS == 64,
                ;
            }
        }
        if frame_count > capacity {
            return Err(FrameError::CapacityExceeded);
        }
        let bitmap: [u64; WORDS] = vstd::array::array_fill_for_copy_types(0u64);
        let r = FrameAllocator { base, frame_count, allocated: 0, bitmap };
        proof {
            assert(frame_count * PAGE_SIZE <= end - base) by (nonlinear_arith)
                requires
                    frame_count == (end - base) / (PAGE_SIZE as int),
                    end > base,
                    PAGE_SIZE == 4096,
            ;
            assert(frame_count > 0) by (nonlinear_arith)
                requires
                    frame_count == (end - base) / (PAGE_SIZE as int),
                    end > base,
                    (end - base) % (PAGE_SIZE as int) == 0,
                    PAGE_SIZE == 4096,
            ;
            assert forall|i: int| 0 <= i < frame_count implies !bit_of(bitmap@, i) by {
                assert(0 <= i / 64 < WORDS) by (nonlinear_arith)
                    requires
                        0 <= i < frame_count,
                        frame_count <= WORDS * 64,
                ;
                lemma_zero_bits((i % 64) as u64);
            }
            assert(r.view().used =~= Seq::new(frame_count as nat, |i: int| false));
            lemma_count_none(frame_count as nat);
        }
        Ok(r)
    }

    /// Hands out the lowest free frame, or `None` when every frame is in use.
    pub fn allocate(&mut self) -> (r: Option<PhysFrame>)
        requires
            old(self).wf(),
        ensures
            final(self).wf(),
            final(self).view() == allocate_pool(old(self).view()),
            final(self).view().base == old(self).view().base,
            first_free(old(self).view().used) == old(self).view().used.len() ==> (r is None
                && final(self).view() == old(self).view()),
            first_free(old(self).view().used) < old(self).view().used.len() ==> (r matches Some(f)
                && f@ == frame_address(old(self).view(), first_free(old(self).view().used))
                && final(self).view().used == old(self).view().used.update(
                first_free(old(self).view().used),
                true,
            )),
    {
        let ghost pool = self.view();
        proof {
            lemma_first_free(pool.used);
        }
        let mut index: usize = 0;
        while index < self.frame_count
            invariant
                self.wf(),
                self.view() == pool,
                old(self).view() == pool,
                index <= self.frame_count,
                forall|j: int| 0 <= j < index ==> pool.used[j],
            decreases self.frame_count - index,
        {
            let word = index / WORD_BITS;
            let bit = (index % WORD_BITS) as u64;
            proof {
                assert(word < WORDS) by (nonlinear_arith)
                    requires
                        index < self.frame_count,
                        self.frame_count <= WORDS * 64,
                        word == index / 64,
                ;
                lemma_bit_test(self.bitmap@[word as int], bit);
                assert(pool.used[index as int] == bit_of(self.bitmap@, index as int));
            }
            if self.bitmap[word] & (1u64 << bit) == 0 {
                let ghost old_words = self.bitmap@;
                let new_word = self.bitmap[word] | (1u64 << bit);
                self.bitmap[word] = new_word;
                proof {
                    lemma_first_free_at(pool.used, index as int);
                    assert forall|i: int| 0 <= i < self.frame_count implies bit_of(self.bitmap@, i)
                        == pool.used.update(index as int, true)[i] by {
                        assert(0 <= i / 64 < WORDS) by (nonlinear_arith)
                            requires
                                0 <= i < self.frame_count,
                                self.frame_count <= WORDS * 64,
                        ;
                        if i / 64 == word as int {
                            lemma_bit_set(old_words[word as int], bit, (i % 64) as u64);
                            assert((i == index) == (i % 64 == bit)) by (nonlinear_arith)
                                requires
                                    i / 64 == word,
                                    word == index / 64,
                                    bit == index % 64,
                                    0 <= i,
                            ;
                        } else {
                            assert(self.bitmap@[i / 64] == old_words[i / 64]);
                            assert(i != index);
                        }
                    }
                    assert(self.view().used =~= pool.used.update(index as int, true));
                    lemma_count_update(pool.used, index as int, true);
                    lemma_count_bounded(self.view().used);
                }
                self.allocated = self.allocated + 1;
                let start = self.base + index * PAGE_SIZE;
                proof {
                    assert(index * PAGE_SIZE < self.frame_count * PAGE_SIZE) by (nonlinear_arith)
                        requires
                            index < self.frame_count,
                            PAGE_SIZE == 4096,
                    ;
                }
                return Some(PhysFrame(start));
            }
            index = index + 1;
        }
        proof {
            lemma_first_free_at(pool.used, index as int);
        }
        None
    }

    /// Takes a frame back. A refused frame leaves the allocator as it was.
    pub fn deallocate(&mut self, frame: PhysFrame) -> (r: Result<(), FrameError>)
        requires
            old(self).wf(),
        ensures
            final(self).wf(),
            final(self).view() == deallocate_pool(old(self).view(), frame@),
            final(self).view().base == old(self).view().base,
            match release_error(old(self).view(), frame@) {
                Some(e) => r == Err::<(), FrameError>(e) && final(self).view() == old(self).view(),
                None => r is Ok && final(self).view().used == old(self).view().used.update(
                    (frame@ - old(self).view().base) / (PAGE_SIZE as int),
                    false,
                ),
            },
    {
        let ghost pool = self.view();
        let start = frame.start();
        if start % PAGE_SIZE != 0 {
            return Err(FrameError::Unaligned);
        }
        if start < self.base {
            return Err(FrameError::OutOfRange);
        }
        let index = (start - self.base) / PAGE_SIZE;
        if index >= self.frame_count {
            return Err(FrameError::OutOfRange);
        }
        let word = index / WORD_BITS;
        let bit = (index % WORD_BITS) as u64;
        proof {
            assert(word < WORDS) by (nonlinear_arith)
                requires
                    index < self.frame_count,
                    self.frame_count <= WORDS * 64,
                    word == index / 64,
            ;
            lemma_bit_test(self.bitmap@[word as int], bit);
            assert(pool.used[index as int] == bit_of(self.bitmap@, index as int));
        }
        if self.bitmap[word] & (1u64 << bit) == 0 {
            return Err(FrameError::DoubleFree);
        }
        let ghost old_words = self.bitmap@;
        let new_word = self.bitmap[word] & !(1u64 << bit);
        self.bitmap[word] = new_word;
        proof {
            assert forall|i: int| 0 <= i < self.frame_count implies bit_of(self.bitmap@, i)
                == pool.used.update(index as int, false)[i] by {
                assert(0 <= i / 64 < WORDS) by (nonlinear_arith)
                    requires
                        0 <= i < self.frame_count,
                        self.frame_count <= WORDS * 64,
                ;
                if i / 64 == word as int {
                    lemma_bit_clear(old_words[word as int], bit, (i % 64) as u64);
                    assert((i == index) == (i % 64 == bit)) by (nonlinear_arith)
                        requires
                            i / 64 == word,
                            word == index / 64,
                            bit == index % 64,
                            0 <= i,
                    ;
                } else {
                    assert(self.bitmap@[i / 64] == old_words[i / 64]);
                    assert(i != index);
                }
            }
            assert(self.view().used =~= pool.used.update(index as int, false));
            lemma_count_update(pool.used, index as int, false);
        }
        self.allocated = self.allocated - 1;
        Ok(())
    }

    /// Frees `frame` as `deallocate` does, but hands the frame back when the
    /// allocator refuses it, so that its owner keeps it.
    pub fn deallocate_recoverable(&mut self, frame: PhysFrame) -> (r: Result<(), (FrameError, PhysFrame)>)
        requires
            old(self).wf(),
        ensures
            final(self).wf(),
            final(self).view().base == old(self).view().base,
            match release_error(old(self).view(), frame@) {
                Some(e) => r == Err::<(), (FrameError, PhysFrame)>((e, frame)) && final(self).view()
                    == old(self).view(),
                None => r is Ok && final(self).view().used == old(self).view().used.update(
                    (frame@ - old(self).view().base) / (PAGE_SIZE as int),
                    false,
                ),
            },
    {
        let kept = PhysFrame(frame.start());
        match self.deallocate(frame) {
            Ok(()) => Ok(()),
            Err(error) => Err((error, kept)),
        }
    }

    /// How many frames there are, how many are handed out, how many are free.
    pub fn stats(&self) -> (r: FrameStats)
        requires
            self.wf(),
        ensures
            r.total == self.view().used.len(),
            r.allocated == count_used(self.view().used),
            r.free == self.view().used.len() - count_used(self.view().used),
    {
        proof {
            lemma_count_bounded(self.view().used);
        }
        FrameStats {
            total: self.frame_count,
            allocated: self.allocated,
            free: self.frame_count - self.allocated,
        }
    }
}

impl<const WORDS: usize> FrameAllocator<WORDS> {
    /// The frames of a well-formed allocator start on page boundaries, and
    /// all of them lie below `usize::MAX`.
    pub proof fn lemma_pool_shape(&self)
        requires
            self.wf(),
        ensures
            self.view().base % PAGE_SIZE as nat == 0,
            self.view().base + self.view().used.len() * PAGE_SIZE <= usize::MAX,
    {
    }
}

/// Freeing the frame that an allocation just handed out is accepted and
/// restores the pool as it was before the allocation.
pub proof fn lemma_allocate_then_release(pool: FramePool)
    requires
        pool.base % PAGE_SIZE as nat == 0,
        first_free(pool.used) < pool.used.len(),
    ensures
        ({
            let i = first_free(pool.used);
            let after = FramePool { base: pool.base, used: pool.used.update(i, true) };
            let start = frame_address(pool, i);
            &&& release_error(after, start as nat) is None
            &&& (start - after.base) / (PAGE_SIZE as int) == i
            &&& after.used.update(i, false) == pool.used
        }),
{
    let i = first_free(pool.used);
    lemma_first_free(pool.used);
    let start = frame_address(pool, i);
    assert((start - pool.base) / (PAGE_SIZE as int) == i) by (nonlinear_arith)
        requires
            start == pool.base + i * PAGE_SIZE,
            PAGE_SIZE == 4096,
    ;
    assert(start % PAGE_SIZE as int == 0) by (nonlinear_arith)
        requires
            start == pool.base + i * PAGE_SIZE,
            pool.base % PAGE_SIZE as nat == 0,
            PAGE_SIZE == 4096,
            i >= 0,
    ;
    assert(pool.used.update(i, true).update(i, false) =~= pool.used);
}

/// Two allocations in a row never hand out the same frame.
pub proof fn lemma_allocations_distinct(used: Seq<bool>)
    requires
        first_free(used) < used.len(),
    ensures
        first_free(used.update(first_free(used), true)) != first_free(used),
{
    let i = first_free(used);
    let after = used.update(i, true);
    lemma_first_free(used);
    lemma_first_free(after);
}

/// One call on a frame allocator: `allocate`, or `deallocate` of the frame
/// that starts at the given address.
pub enum FrameCall {
    Allocate,
    Deallocate(nat),
}

/// The books after `allocate`: the lowest free frame is handed out, if any.
pub open spec fn allocate_pool(p: FramePool) -> FramePool {
    if first_free(p.used) < p.used.len() {
        FramePool { base: p.base, used: p.used.update(first_free(p.used), true) }
    } else {
        p
    }
}

/// The books after `deallocate` of the frame at `start`: freed unless refused.
pub open spec fn deallocate_pool(p: FramePool, start: nat) -> FramePool {
    match release_error(p, start) {
        Some(_) => p,
        None => FramePool {
            base: p.base,
            used: p.used.update((start - p.base) / (PAGE_SIZE as int), false),
        },
    }
}

pub open spec fn call_pool(p: FramePool, c: FrameCall) -> FramePool {
    match c {
        FrameCall::Allocate => allocate_pool(p),
        FrameCall::Deallocate(start) => deallocate_pool(p, start),
    }
}

/// The books after the calls `cs`, in order.
pub open spec fn calls_pool(p: FramePool, cs: Seq<FrameCall>) -> FramePool
    decreases cs.len(),
{
    if cs.len() == 0 {
        p
    } else {
        call_pool(calls_pool(p, cs.drop_last()), cs.last())
    }
}

/// Frames handed out by the calls `cs` and not given back by them: each
/// `allocate` that found a frame counts one up, each accepted `deallocate`
/// one down.
pub open spec fn outstanding(p: FramePool, cs: Seq<FrameCall>) -> int
    decreases cs.len(),
{
    if cs.len() == 0 {
        0
    } else {
        let before = calls_pool(p, cs.drop_last());
        outstanding(p, cs.drop_last()) + match cs.last() {
            FrameCall::Allocate => if first_free(before.used) < before.used.len() {
                1int
            } else {
                0int
            },
            FrameCall::Deallocate(start) => if release_error(before, start) is None {
                -1int
            } else {
                0int
            },
        }
    }
}

proof fn lemma_calls_count(p: FramePool, cs: Seq<FrameCall>)
    ensures
        calls_pool(p, cs).base == p.base,
        calls_pool(p, cs).used.len() == p.used.len(),
        count_used(calls_pool(p, cs).used) == count_used(p.used) + outstanding(p, cs),
    decreases cs.len(),
{
    if cs.len() > 0 {
        lemma_calls_count(p, cs.drop_last());
        let before = calls_pool(p, cs.drop_last());
        lemma_first_free(before.used);
        match cs.last() {
            FrameCall::Allocate => {
                if first_free(before.used) < before.used.len() {
                    lemma_count_update(before.used, first_free(before.used), true);
                }
            },
            FrameCall::Deallocate(start) => {
                if release_error(before, start) is None {
                    lemma_count_update(before.used, (start - before.base) / (PAGE_SIZE as int), false);
                }
            },
        }
    }
}

/// Over any run of calls on a fresh allocator of `n` frames, the books keep
/// `n` frames, and the frames in use are exactly those handed out and not
/// given back; so `stats` reports `n` in all, that many allocated, and the
/// rest free. A refused call changes nothing.
pub proof fn lemma_stats_follow_calls(base: nat, n: nat, cs: Seq<FrameCall>)
    ensures
        ({
            let fresh = FramePool { base, used: Seq::new(n, |i: int| false) };
            let p = calls_pool(fresh, cs);
            &&& p.base == base
            &&& p.used.len() == n
            &&& count_used(p.used) == outstanding(fresh, cs)
        }),
{
    let fresh = FramePool { base, used: Seq::new(n, |i: int| false) };
    lemma_count_none(n);
    lemma_calls_count(fresh, cs);
}

} // verus!
