//! A first-fit free-list heap over a fixed region.
//!
//! The heap splits and merges a region taken from the top of managed RAM in
//! 16-byte granules, for kernel objects smaller than a page. It owns no memory
//! itself; it keeps the books of the region it was given.
//!
//! Each allocation carries a 16-byte span header right before the address it
//! hands out, recording the start and length of the whole span it occupies
//! (alignment padding in front and a too-small tail included); `dealloc` reads
//! the header back from there. Free blocks form a list in address order, and a
//! freed span merges with the blocks right before and after it.
//!
//! Here the headers are kept as records keyed by the address they sit at, and
//! the free list as a vector of `(start, size)` blocks.

use vstd::prelude::*;
use crate::elf::plan::{is_power_of_two, power_of_two};
use crate::memory::heap_layout::{
    free_separated, lemma_alloc_keeps_free_separated, lemma_dealloc_keeps_free_separated,
};

verus! {

/// The allocation granule, also the least block and the header length.
pub const GRANULE: usize = 16;

/// The length of the span header kept right before each allocation.
pub const SPAN_LEN: usize = 16;

#[derive(Debug, Clone, Copy, PartialEq, Eq, Structural)]
pub enum HeapError {
    /// The region's start or length is off the granule, or the alignment is
    /// not a power of two.
    Misaligned,
    /// The region is smaller than one block.
    EmptyRange,
    /// No free block can hold the request.
    OutOfMemory,
    /// The address is outside the region, or no valid header precedes it.
    InvalidPointer,
    /// The span overlaps a free block: it was freed already.
    DoubleFree,
}

#[derive(Debug, Clone, Copy, PartialEq, Eq, Structural)]
pub struct HeapStats {
    /// Bytes managed.
    pub total: usize,
    /// Bytes held by allocated spans, headers and padding included.
    pub allocated: usize,
    /// Bytes in free blocks.
    pub free: usize,
    /// How many free blocks there are; merging keeps this small.
    pub free_blocks: usize,
    /// The largest free block.
    pub largest_free: usize,
}

/// The books of a heap: its region, the bytes allocated, the free blocks
/// `(start, size)` in address order, and the span headers
/// `(header address, span start, span length)` of the live allocations.
pub struct HeapView {
    pub start: usize,
    pub end: usize,
    pub allocated: usize,
    pub free: Seq<(usize, usize)>,
    pub spans: Seq<(usize, usize, usize)>,
}

pub struct Heap {
    start: usize,
    end: usize,
    allocated: usize,
    free: Vec<(usize, usize)>,
    spans: Vec<(usize, usize, usize)>,
}

pub open spec fn block_end(b: (usize, usize)) -> int {
    b.0 + b.1
}

/// The free blocks lie in the region, on the granule, at least one granule
/// long, in address order and apart.
#[verifier::opaque]
pub open spec fn free_list_ok(free: Seq<(usize, usize)>, start: int, end: int) -> bool {
    &&& forall|i: int| 0 <= i < free.len() ==> block_ok(#[trigger] free[i], start, end)
    &&& forall|i: int, j: int|
        0 <= i < j < free.len() ==> block_end(#[trigger] free[i]) <= (#[trigger] free[j]).0
}

/// The bytes in the free blocks.
pub open spec fn free_sum(free: Seq<(usize, usize)>) -> int
    decreases free.len(),
{
    if free.len() == 0 {
        0
    } else {
        free_sum(free.drop_last()) + free.last().1
    }
}

/// The bytes in the live spans.
pub open spec fn span_sum(spans: Seq<(usize, usize, usize)>) -> int
    decreases spans.len(),
{
    if spans.len() == 0 {
        0
    } else {
        span_sum(spans.drop_last()) + spans.last().2
    }
}

/// The books add up: the region is whole blocks on the granule, the free
/// blocks are in order, and free and allocated bytes make up the region.
pub open spec fn heap_ok(h: HeapView) -> bool {
    &&& h.start <= h.end
    &&& h.start % GRANULE == 0
    &&& h.end % GRANULE == 0
    &&& free_list_ok(h.free, h.start as int, h.end as int)
    &&& h.allocated == span_sum(h.spans)
    &&& free_sum(h.free) + span_sum(h.spans) == h.end - h.start
}

/// `x` rounded up to a multiple of `a`.
pub open spec fn round_up(x: int, a: int) -> int {
    ((x + a - 1) / a) * a
}

/// Where an allocation aligned to `align` starts in a block at `block_start`:
/// the first aligned address after the header.
pub open spec fn payload_at(block_start: int, align: int) -> int {
    round_up(block_start + SPAN_LEN, align)
}

/// Whether a block can hold `size` bytes aligned to `align`, the span's end
/// rounded to the granule, with no address past `usize::MAX` on the way.
pub open spec fn fits(b: (usize, usize), size: int, align: int) -> bool {
    &&& b.0 + SPAN_LEN + align - 1 <= usize::MAX
    &&& payload_at(b.0 as int, align) + size + GRANULE - 1 <= usize::MAX
    &&& round_up(payload_at(b.0 as int, align) + size, GRANULE as int) <= block_end(b)
}

/// The first block at or after `i` that fits, or the length of `free`.
pub open spec fn first_fit(free: Seq<(usize, usize)>, i: int, size: int, align: int) -> int
    decreases free.len() - i,
{
    if 0 <= i < free.len() && !fits(free[i], size, align) {
        first_fit(free, i + 1, size, align)
    } else {
        i
    }
}

pub open spec fn max_int(a: int, b: int) -> int {
    if a >= b {
        a
    } else {
        b
    }
}

/// What allocating `size` bytes aligned to `align` does: the request is at
/// least one byte and one granule aligned; the first block that fits gives a
/// span from its start; a tail of less than a granule joins the span, a larger
/// one stays a free block in the same place.
pub open spec fn alloc_outcome(h: HeapView, size: usize, align: usize) -> (
    Result<usize, HeapError>,
    HeapView,
) {
    let size1 = max_int(size as int, 1);
    let align1 = max_int(align as int, GRANULE as int);
    let i = first_fit(h.free, 0, size1, align1);
    if !is_power_of_two(align1) {
        (Err(HeapError::Misaligned), h)
    } else if i >= h.free.len() {
        (Err(HeapError::OutOfMemory), h)
    } else {
        let b = h.free[i];
        let payload = payload_at(b.0 as int, align1);
        let fitted_end = round_up(payload + size1, GRANULE as int);
        let span_end = if block_end(b) - fitted_end < GRANULE {
            block_end(b)
        } else {
            fitted_end
        };
        let span_len = span_end - b.0;
        let free = if span_end == block_end(b) {
            h.free.remove(i)
        } else {
            h.free.update(i, (span_end as usize, (block_end(b) - span_end) as usize))
        };
        (
            Ok(payload as usize),
            HeapView {
                allocated: (h.allocated + span_len) as usize,
                free,
                spans: h.spans.push(((payload - SPAN_LEN) as usize, b.0, span_len as usize)),
                ..h
            },
        )
    }
}

/// The index of the first span header at `header`, or the number of spans.
pub open spec fn header_index(spans: Seq<(usize, usize, usize)>, i: int, header: int) -> int
    decreases spans.len() - i,
{
    if 0 <= i < spans.len() && spans[i].0 != header {
        header_index(spans, i + 1, header)
    } else {
        i
    }
}

/// A header describes a span that can be returned: on the granule, inside
/// the region, and holding the header itself.
pub open spec fn span_ok(h: HeapView, header: int, span: (usize, usize, usize)) -> bool {
    &&& span.1 % GRANULE == 0
    &&& span.2 % GRANULE == 0
    &&& span.1 >= h.start
    &&& span.1 <= header
    &&& span.1 + span.2 <= h.end
    &&& header + SPAN_LEN <= span.1 + span.2
}

/// The index of the first free block that starts at or after `e`.
pub open spec fn blocks_before(free: Seq<(usize, usize)>, i: int, e: int) -> int
    decreases free.len() - i,
{
    if 0 <= i < free.len() && free[i].0 < e {
        blocks_before(free, i + 1, e)
    } else {
        i
    }
}

/// What putting `[s, e)` back on the free list does: refused when it overlaps
/// a block; else it merges with the block that ends at `s` and the one that
/// starts at `e`, or stands as a block of its own in address order.
pub open spec fn insert_outcome(free: Seq<(usize, usize)>, s: int, e: int) -> Result<
    Seq<(usize, usize)>,
    HeapError,
> {
    let j = blocks_before(free, 0, e);
    if exists|i: int| 0 <= i < j && block_end(#[trigger] free[i]) > s {
        Err(HeapError::DoubleFree)
    } else if j > 0 && block_end(free[j - 1]) == s {
        if j < free.len() && free[j].0 == e {
            Ok(
                free.update(j - 1, (free[j - 1].0, (free[j - 1].1 + (e - s) + free[j].1) as usize)).remove(
                    j,
                ),
            )
        } else {
            Ok(free.update(j - 1, (free[j - 1].0, (free[j - 1].1 + (e - s)) as usize)))
        }
    } else if j < free.len() && free[j].0 == e {
        Ok(free.update(j, (s as usize, (e - s + free[j].1) as usize)))
    } else {
        Ok(free.insert(j, (s as usize, (e - s) as usize)))
    }
}

/// What freeing the allocation at `ptr` does: the header before `ptr` must
/// lie in the region, be a live header and describe a valid span, which then
/// goes back on the free list.
pub open spec fn dealloc_outcome(h: HeapView, ptr: usize) -> (Result<(), HeapError>, HeapView) {
    let header = ptr - SPAN_LEN;
    let k = header_index(h.spans, 0, header);
    if ptr < SPAN_LEN || header < h.start || header + SPAN_LEN > h.end {
        (Err(HeapError::InvalidPointer), h)
    } else if k >= h.spans.len() || !span_ok(h, header, h.spans[k]) {
        (Err(HeapError::InvalidPointer), h)
    } else {
        let span = h.spans[k];
        match insert_outcome(h.free, span.1 as int, span.1 + span.2) {
            Err(e) => (Err(e), h),
            Ok(free) => (
                Ok(()),
                HeapView {
                    allocated: (h.allocated - span.2) as usize,
                    free,
                    spans: h.spans.remove(k),
                    ..h
                },
            ),
        }
    }
}

/// The largest block size of `free`, or zero.
pub open spec fn largest(free: Seq<(usize, usize)>) -> int
    decreases free.len(),
{
    if free.len() == 0 {
        0
    } else {
        max_int(largest(free.drop_last()), free.last().1 as int)
    }
}

// ---------------------------------------------------------------------------
// Sums over the books.

pub proof fn lemma_free_sum_nonneg(free: Seq<(usize, usize)>)
    ensures
        free_sum(free) >= 0,
        forall|i: int| 0 <= i < free.len() ==> (#[trigger] free[i]).1 <= free_sum(free),
    decreases free.len(),
{
    if free.len() > 0 {
        lemma_free_sum_nonneg(free.drop_last());
        assert forall|i: int| 0 <= i < free.len() implies (#[trigger] free[i]).1 <= free_sum(
            free,
        ) by {
            if i < free.len() - 1 {
                assert(free.drop_last()[i] == free[i]);
            }
        }
    }
}

pub proof fn lemma_free_sum_update(free: Seq<(usize, usize)>, i: int, v: (usize, usize))
    requires
        0 <= i < free.len(),
    ensures
        free_sum(free.update(i, v)) == free_sum(free) - free[i].1 + v.1,
    decreases free.len(),
{
    let t = free.update(i, v);
    if i == free.len() - 1 {
        assert(t.drop_last() =~= free.drop_last());
    } else {
        assert(t.drop_last() =~= free.drop_last().update(i, v));
        lemma_free_sum_update(free.drop_last(), i, v);
    }
}

pub proof fn lemma_free_sum_remove(free: Seq<(usize, usize)>, i: int)
    requires
        0 <= i < free.len(),
    ensures
        free_sum(free.remove(i)) == free_sum(free) - free[i].1,
    decreases free.len(),
{
    let t = free.remove(i);
    if i == free.len() - 1 {
        assert(t =~= free.drop_last());
    } else {
        assert(t.drop_last() =~= free.drop_last().remove(i));
        assert(t.last() == free.last());
        lemma_free_sum_remove(free.drop_last(), i);
    }
}

pub proof fn lemma_free_sum_insert(free: Seq<(usize, usize)>, i: int, v: (usize, usize))
    requires
        0 <= i <= free.len(),
    ensures
        free_sum(free.insert(i, v)) == free_sum(free) + v.1,
    decreases free.len(),
{
    let t = free.insert(i, v);
    if i == free.len() {
        assert(t.drop_last() =~= free);
    } else {
        assert(t.drop_last() =~= free.drop_last().insert(i, v));
        assert(t.last() == free.last());
        lemma_free_sum_insert(free.drop_last(), i, v);
    }
}

pub proof fn lemma_free_sum_prefix(free: Seq<(usize, usize)>, k: int)
    requires
        0 <= k <= free.len(),
    ensures
        free_sum(free.subrange(0, k)) <= free_sum(free),
        k < free.len() ==> free_sum(free.subrange(0, k + 1)) == free_sum(free.subrange(0, k))
            + free[k].1,
    decreases free.len() - k,
{
    if k < free.len() {
        assert(free.subrange(0, k + 1).drop_last() =~= free.subrange(0, k));
        lemma_free_sum_prefix(free, k + 1);
    } else {
        assert(free.subrange(0, k) =~= free);
    }
}

pub proof fn lemma_span_sum_remove(spans: Seq<(usize, usize, usize)>, i: int)
    requires
        0 <= i < spans.len(),
    ensures
        span_sum(spans.remove(i)) == span_sum(spans) - spans[i].2,
        spans[i].2 <= span_sum(spans),
    decreases spans.len(),
{
    let t = spans.remove(i);
    if i == spans.len() - 1 {
        assert(t =~= spans.drop_last());
        lemma_span_sum_nonneg(spans.drop_last());
    } else {
        assert(t.drop_last() =~= spans.drop_last().remove(i));
        assert(t.last() == spans.last());
        lemma_span_sum_remove(spans.drop_last(), i);
    }
}

pub proof fn lemma_span_sum_nonneg(spans: Seq<(usize, usize, usize)>)
    ensures
        span_sum(spans) >= 0,
    decreases spans.len(),
{
    if spans.len() > 0 {
        lemma_span_sum_nonneg(spans.drop_last());
    }
}

proof fn lemma_largest_prefix(free: Seq<(usize, usize)>, k: int)
    requires
        0 <= k < free.len(),
    ensures
        largest(free.subrange(0, k + 1)) == max_int(largest(free.subrange(0, k)), free[k].1 as int),
{
    assert(free.subrange(0, k + 1).drop_last() =~= free.subrange(0, k));
}

proof fn lemma_largest_bound(free: Seq<(usize, usize)>)
    ensures
        0 <= largest(free) <= free_sum(free),
    decreases free.len(),
{
    if free.len() > 0 {
        lemma_largest_bound(free.drop_last());
        lemma_free_sum_nonneg(free.drop_last());
    }
}

// ---------------------------------------------------------------------------
// Positions in the books.

pub(crate) proof fn lemma_first_fit(free: Seq<(usize, usize)>, i: int, size: int, align: int)
    requires
        0 <= i <= free.len(),
    ensures
        i <= first_fit(free, i, size, align) <= free.len(),
        first_fit(free, i, size, align) < free.len() ==> fits(
            free[first_fit(free, i, size, align)],
            size,
            align,
        ),
    decreases free.len() - i,
{
    if i < free.len() && !fits(free[i], size, align) {
        lemma_first_fit(free, i + 1, size, align);
    }
}

pub(crate) proof fn lemma_blocks_before(free: Seq<(usize, usize)>, i: int, e: int)
    requires
        0 <= i <= free.len(),
    ensures
        i <= blocks_before(free, i, e) <= free.len(),
        forall|k: int| i <= k < blocks_before(free, i, e) ==> (#[trigger] free[k]).0 < e,
        blocks_before(free, i, e) < free.len() ==> free[blocks_before(free, i, e)].0 >= e,
    decreases free.len() - i,
{
    if i < free.len() && free[i].0 < e {
        lemma_blocks_before(free, i + 1, e);
    }
}

pub(crate) proof fn lemma_header_index(spans: Seq<(usize, usize, usize)>, i: int, header: int)
    requires
        0 <= i <= spans.len(),
    ensures
        i <= header_index(spans, i, header) <= spans.len(),
        header_index(spans, i, header) < spans.len() ==> spans[header_index(spans, i, header)].0
            == header,
    decreases spans.len() - i,
{
    if i < spans.len() && spans[i].0 != header {
        lemma_header_index(spans, i + 1, header);
    }
}

pub(crate) proof fn lemma_round_up(x: int, a: int)
    requires
        x >= 0,
        a > 0,
    ensures
        x <= round_up(x, a) < x + a,
        round_up(x, a) % a == 0,
        round_up(x, a) >= 0,
{
    assert(x <= round_up(x, a) < x + a && round_up(x, a) % a == 0) by (nonlinear_arith)
        requires
            x >= 0,
            a > 0,
    ;
}

// ---------------------------------------------------------------------------
// The heap.

impl View for Heap {
    type V = HeapView;

    closed spec fn view(&self) -> HeapView {
        HeapView {
            start: self.start,
            end: self.end,
            allocated: self.allocated,
            free: self.free@,
            spans: self.spans@,
        }
    }
}

/// Where a request of `size` bytes aligned to `align` would start and end in
/// the block `[block_start, block_end)`, if the block can hold it.
fn fit(block_start: usize, block_end: usize, size: usize, align: usize) -> (r: Option<(usize, usize)>)
    requires
        block_start <= block_end,
        align > 0,
    ensures
        r is Some <==> fits((block_start, (block_end - block_start) as usize), size as int, align as int),
        r matches Some((payload, fitted)) ==> payload == payload_at(block_start as int, align as int)
            && fitted == round_up(payload + size, GRANULE as int),
{
    let ghost b = (block_start, (block_end - block_start) as usize);
    if block_start > usize::MAX - SPAN_LEN || block_start + SPAN_LEN > usize::MAX - (align - 1) {
        return None;
    }
    let x = block_start + SPAN_LEN + (align - 1);
    let q = x / align;
    proof {
        assert(q * align <= x) by (nonlinear_arith)
            requires
                q == x / align,
                align > 0,
                x >= 0,
        ;
    }
    let payload = q * align;
    if payload > usize::MAX - size || payload + size > usize::MAX - (GRANULE - 1) {
        return None;
    }
    let y = payload + size + (GRANULE - 1);
    let qg = y / GRANULE;
    proof {
        assert(qg * 16 <= y) by (nonlinear_arith)
            requires
                qg == y / 16,
                y >= 0,
        ;
    }
    let fitted = qg * GRANULE;
    if fitted > block_end {
        return None;
    }
    Some((payload, fitted))
}

/// What holds of the free list at the place `j` where `[s, e)` goes in: the
/// blocks before `j` start below `e` and end by `s`; the block at `j`, if any,
/// starts at or after `e`.
pub open spec fn gap_at(f: Seq<(usize, usize)>, j: int, s: int, e: int) -> bool {
    &&& 0 <= j <= f.len()
    &&& forall|i: int| 0 <= i < j ==> block_end(#[trigger] f[i]) <= s
    &&& j < f.len() ==> f[j].0 >= e
}

/// The shape of a block that may join a free list over `[lo, hi)`.
pub open spec fn block_ok(b: (usize, usize), lo: int, hi: int) -> bool {
    lo <= b.0 && block_end(b) <= hi && b.1 >= GRANULE && b.0 % GRANULE == 0 && b.1 % GRANULE == 0
}

/// A block of a free list has the shape of one.
pub proof fn lemma_block_in(f: Seq<(usize, usize)>, i: int, lo: int, hi: int)
    requires
        free_list_ok(f, lo, hi),
        0 <= i < f.len(),
    ensures
        block_ok(f[i], lo, hi),
        i + 1 < f.len() ==> block_end(f[i]) <= f[i + 1].0,
{
    reveal(free_list_ok);
}

proof fn lemma_merge_both(f: Seq<(usize, usize)>, j: int, s: int, e: int, lo: int, hi: int, merged: (usize, usize))
    requires
        free_list_ok(f, lo, hi),
        gap_at(f, j, s, e),
        0 < j < f.len(),
        block_end(f[j - 1]) == s,
        f[j].0 == e,
        merged.0 == f[j - 1].0,
        merged.1 == f[j - 1].1 + (e - s) + f[j].1,
        block_ok(merged, lo, hi),
    ensures
        free_list_ok(f.update(j - 1, merged).remove(j), lo, hi),
{
    reveal(free_list_ok);
    let g = f.update(j - 1, merged).remove(j);
    assert forall|i: int| 0 <= i < g.len() implies block_ok(#[trigger] g[i], lo, hi) by {
        if i < j - 1 {
            assert(g[i] == f[i]);
        } else if i > j - 1 {
            assert(g[i] == f[i + 1]);
        }
    }
    assert forall|a: int, b: int| 0 <= a < b < g.len() implies block_end(#[trigger] g[a]) <= (
    #[trigger] g[b]).0 by {
        if b < j - 1 {
            assert(g[a] == f[a] && g[b] == f[b]);
        } else if b == j - 1 {
            assert(g[a] == f[a]);
        } else if a < j - 1 {
            assert(g[a] == f[a] && g[b] == f[b + 1]);
            assert(block_end(f[a]) <= f[j - 1].0);
            assert(block_end(f[j - 1]) <= f[b + 1].0);
        } else if a == j - 1 {
            assert(g[b] == f[b + 1]);
            assert(block_end(f[j]) <= f[b + 1].0);
        } else {
            assert(g[a] == f[a + 1] && g[b] == f[b + 1]);
        }
    }
}

proof fn lemma_merge_prev(f: Seq<(usize, usize)>, j: int, s: int, e: int, lo: int, hi: int, merged: (usize, usize))
    requires
        free_list_ok(f, lo, hi),
        gap_at(f, j, s, e),
        0 < j <= f.len(),
        block_end(f[j - 1]) == s,
        merged.0 == f[j - 1].0,
        merged.1 == f[j - 1].1 + (e - s),
        block_ok(merged, lo, hi),
    ensures
        free_list_ok(f.update(j - 1, merged), lo, hi),
{
    reveal(free_list_ok);
    let g = f.update(j - 1, merged);
    assert forall|i: int| 0 <= i < g.len() implies block_ok(#[trigger] g[i], lo, hi) by {
        if i != j - 1 {
            assert(g[i] == f[i]);
        }
    }
    assert forall|a: int, b: int| 0 <= a < b < g.len() implies block_end(#[trigger] g[a]) <= (
    #[trigger] g[b]).0 by {
        if a != j - 1 && b != j - 1 {
            assert(g[a] == f[a] && g[b] == f[b]);
        } else if b == j - 1 {
            assert(g[a] == f[a]);
        } else {
            assert(g[b] == f[b]);
            if b > j {
                assert(block_end(f[j]) <= f[b].0);
            }
        }
    }
}

proof fn lemma_merge_next(f: Seq<(usize, usize)>, j: int, s: int, e: int, lo: int, hi: int, merged: (usize, usize))
    requires
        free_list_ok(f, lo, hi),
        gap_at(f, j, s, e),
        0 <= j < f.len(),
        f[j].0 == e,
        merged.0 == s,
        merged.1 == e - s + f[j].1,
        block_ok(merged, lo, hi),
    ensures
        free_list_ok(f.update(j, merged), lo, hi),
{
    reveal(free_list_ok);
    let g = f.update(j, merged);
    assert forall|i: int| 0 <= i < g.len() implies block_ok(#[trigger] g[i], lo, hi) by {
        if i != j {
            assert(g[i] == f[i]);
        }
    }
    assert forall|a: int, b: int| 0 <= a < b < g.len() implies block_end(#[trigger] g[a]) <= (
    #[trigger] g[b]).0 by {
        if a != j && b != j {
            assert(g[a] == f[a] && g[b] == f[b]);
        } else if b == j {
            assert(g[a] == f[a]);
        } else {
            assert(g[b] == f[b]);
        }
    }
}

proof fn lemma_insert_block(f: Seq<(usize, usize)>, j: int, s: int, e: int, lo: int, hi: int, block: (usize, usize))
    requires
        free_list_ok(f, lo, hi),
        gap_at(f, j, s, e),
        block.0 == s,
        block.1 == e - s,
        block_ok(block, lo, hi),
    ensures
        free_list_ok(f.insert(j, block), lo, hi),
{
    reveal(free_list_ok);
    let g = f.insert(j, block);
    assert forall|i: int| 0 <= i < g.len() implies block_ok(#[trigger] g[i], lo, hi) by {
        if i < j {
            assert(g[i] == f[i]);
        } else if i > j {
            assert(g[i] == f[i - 1]);
        }
    }
    assert forall|a: int, b: int| 0 <= a < b < g.len() implies block_end(#[trigger] g[a]) <= (
    #[trigger] g[b]).0 by {
        if b < j {
            assert(g[a] == f[a] && g[b] == f[b]);
        } else if b == j {
            assert(g[a] == f[a]);
        } else if a == j {
            assert(g[b] == f[b - 1]);
            if b - 1 > j {
                assert(block_end(f[j]) <= f[b - 1].0);
            }
        } else if a < j {
            assert(g[a] == f[a] && g[b] == f[b - 1]);
        } else {
            assert(g[a] == f[a - 1] && g[b] == f[b - 1]);
        }
    }
}

/// Puts `[s, e)` back on the free list `free`, merging it with its neighbours.
#[verifier::rlimit(40)]
fn insert_free(
    free: &mut Vec<(usize, usize)>,
    s: usize,
    e: usize,
    lo: Ghost<int>,
    hi: Ghost<int>,
) -> (r: Result<(), HeapError>)
    requires
        free_list_ok(old(free)@, lo@, hi@),
        hi@ <= usize::MAX,
        lo@ <= s,
        s + GRANULE <= e,
        e <= hi@,
        s % GRANULE == 0,
        e % GRANULE == 0,
    ensures
        match r {
            Ok(_) => insert_outcome(old(free)@, s as int, e as int) == Ok::<
                Seq<(usize, usize)>,
                HeapError,
            >(final(free)@) && free_list_ok(final(free)@, lo@, hi@) && free_sum(final(free)@)
                == free_sum(old(free)@) + (e - s),
            Err(err) => insert_outcome(old(free)@, s as int, e as int) == Err::<
                Seq<(usize, usize)>,
                HeapError,
            >(err) && final(free)@ == old(free)@,
        },
{
    let ghost f = free@;
    proof {
        lemma_blocks_before(f, 0, e as int);
    }
    let mut j: usize = 0;
    while j < free.len() && free[j].0 < e
        invariant
            free@ == f,
            free_list_ok(f, lo@, hi@),
            hi@ <= usize::MAX,
            j <= f.len(),
            blocks_before(f, 0, e as int) == blocks_before(f, j as int, e as int),
            forall|i: int| 0 <= i < j ==> block_end(#[trigger] f[i]) <= s,
        decreases f.len() - j,
    {
        proof {
            lemma_block_in(f, j as int, lo@, hi@);
        }
        if free[j].0 + free[j].1 > s {
            proof {
                lemma_blocks_before(f, j as int + 1, e as int);
                assert(0 <= j < blocks_before(f, 0, e as int) && block_end(f[j as int]) > s);
            }
            return Err(HeapError::DoubleFree);
        }
        j = j + 1;
    }
    let ghost jj = j as int;
    proof {
        assert(blocks_before(f, 0, e as int) == jj);
        assert(!(exists|i: int| 0 <= i < jj && block_end(#[trigger] f[i]) > s));
        assert(gap_at(f, jj, s as int, e as int));
        lemma_free_sum_nonneg(f);
    }
    let n = free.len();
    if j > 0 && free[j - 1].0 + free[j - 1].1 == s {
        let prev = free[j - 1];
        if j < n && free[j].0 == e {
            let next = free[j];
            proof {
                lemma_block_in(f, jj, lo@, hi@);
                lemma_block_in(f, jj - 1, lo@, hi@);
            }
            let merged = (prev.0, prev.1 + (e - s) + next.1);
            free.set(j - 1, merged);
            let ghost updated = free@;
            free.remove(j);
            proof {
                lemma_free_sum_update(f, jj - 1, merged);
                lemma_free_sum_remove(updated, jj);
                assert(free@ =~= f.update(jj - 1, merged).remove(jj));
                lemma_merge_both(f, jj, s as int, e as int, lo@, hi@, merged);
            }
        } else {
            proof {
                lemma_block_in(f, jj - 1, lo@, hi@);
            }
            let merged = (prev.0, prev.1 + (e - s));
            free.set(j - 1, merged);
            proof {
                lemma_free_sum_update(f, jj - 1, merged);
                assert(free@ =~= f.update(jj - 1, merged));
                lemma_merge_prev(f, jj, s as int, e as int, lo@, hi@, merged);
            }
        }
    } else if j < n && free[j].0 == e {
        let next = free[j];
        proof {
            lemma_block_in(f, jj, lo@, hi@);
        }
        let merged = (s, e - s + next.1);
        free.set(j, merged);
        proof {
            lemma_free_sum_update(f, jj, merged);
            assert(free@ =~= f.update(jj, merged));
            lemma_merge_next(f, jj, s as int, e as int, lo@, hi@, merged);
        }
    } else {
        let block = (s, e - s);
        free.insert(j, block);
        proof {
            lemma_free_sum_insert(f, jj, block);
            assert(free@ =~= f.insert(jj, block));
            lemma_insert_block(f, jj, s as int, e as int, lo@, hi@, block);
        }
    }
    Ok(())
}

proof fn lemma_remove_block(f: Seq<(usize, usize)>, i: int, lo: int, hi: int)
    requires
        free_list_ok(f, lo, hi),
        0 <= i < f.len(),
    ensures
        free_list_ok(f.remove(i), lo, hi),
{
    reveal(free_list_ok);
    let g = f.remove(i);
    assert forall|k: int| 0 <= k < g.len() implies block_ok(#[trigger] g[k], lo, hi) by {
        if k < i {
            assert(g[k] == f[k]);
        } else {
            assert(g[k] == f[k + 1]);
        }
    }
    assert forall|a: int, b: int| 0 <= a < b < g.len() implies block_end(#[trigger] g[a]) <= (
    #[trigger] g[b]).0 by {
        let fa = if a < i {
            a
        } else {
            a + 1
        };
        let fb = if b < i {
            b
        } else {
            b + 1
        };
        assert(g[a] == f[fa] && g[b] == f[fb]);
    }
}

proof fn lemma_shrink_block(f: Seq<(usize, usize)>, i: int, lo: int, hi: int, nb: (usize, usize))
    requires
        free_list_ok(f, lo, hi),
        0 <= i < f.len(),
        f[i].0 <= nb.0,
        block_end(nb) == block_end(f[i]),
        block_ok(nb, lo, hi),
    ensures
        free_list_ok(f.update(i, nb), lo, hi),
{
    reveal(free_list_ok);
    let g = f.update(i, nb);
    assert forall|k: int| 0 <= k < g.len() implies block_ok(#[trigger] g[k], lo, hi) by {
        if k != i {
            assert(g[k] == f[k]);
        }
    }
    assert forall|a: int, b: int| 0 <= a < b < g.len() implies block_end(#[trigger] g[a]) <= (
    #[trigger] g[b]).0 by {
        if a != i && b != i {
            assert(g[a] == f[a] && g[b] == f[b]);
        } else if a == i {
            assert(g[b] == f[b]);
        } else {
            assert(g[a] == f[a]);
        }
    }
}

impl Heap {
    /// A heap that manages no region yet: every allocation fails until `init`.
    pub fn empty() -> (r: Self)
        ensures
            heap_ok(r@),
            free_separated(r@.free),
            r@ == (HeapView {
                start: 0,
                end: 0,
                allocated: 0,
                free: Seq::empty(),
                spans: Seq::empty(),
            }),
    {
        let r = Heap { start: 0, end: 0, allocated: 0, free: Vec::new(), spans: Vec::new() };
        proof {
            reveal(free_list_ok);
            reveal(free_separated);
        }
        r
    }

    /// Takes `[start, start + len)` as the heap's region, one free block, with
    /// nothing allocated. The caller hands the region over for the heap's use
    /// alone.
    pub fn init(&mut self, start: usize, len: usize) -> (r: Result<(), HeapError>)
        ensures
            start % GRANULE != 0 || len % GRANULE != 0 ==> r == Err::<(), HeapError>(
                HeapError::Misaligned,
            ) && final(self)@ == old(self)@,
            start % GRANULE == 0 && len % GRANULE == 0 && len < GRANULE ==> r == Err::<
                (),
                HeapError,
            >(HeapError::EmptyRange) && final(self)@ == old(self)@,
            start % GRANULE == 0 && len % GRANULE == 0 && len >= GRANULE && start + len
                > usize::MAX ==> r == Err::<(), HeapError>(HeapError::Misaligned) && final(self)@
                == old(self)@,
            start % GRANULE == 0 && len % GRANULE == 0 && len >= GRANULE && start + len
                <= usize::MAX ==> r is Ok && heap_ok(final(self)@) && free_separated(final(self)@.free)
                && final(self)@ == (HeapView {
                start,
                end: (start + len) as usize,
                allocated: 0,
                free: seq![(start, len)],
                spans: Seq::empty(),
            }),
    {
        if start % GRANULE != 0 || len % GRANULE != 0 {
            return Err(HeapError::Misaligned);
        }
        if len < GRANULE {
            return Err(HeapError::EmptyRange);
        }
        if start > usize::MAX - len {
            return Err(HeapError::Misaligned);
        }
        let mut free = Vec::new();
        free.push((start, len));
        self.free = free;
        self.spans = Vec::new();
        self.start = start;
        self.end = start + len;
        self.allocated = 0;
        proof {
            reveal(free_list_ok);
            reveal(free_separated);
            assert(self@.free =~= seq![(start, len)]);
            assert(self@.free.drop_last() =~= Seq::<(usize, usize)>::empty());
            assert(free_sum(Seq::<(usize, usize)>::empty()) == 0);
            assert(free_sum(self@.free) == len);
            assert(span_sum(self@.spans) == 0);
            assert(free_list_ok(self@.free, start as int, (start + len) as int));
            assert(heap_ok(self@));
        }
        Ok(())
    }

    /// Hands out `size` bytes aligned to `align` from the first free block
    /// that can hold them, carving the span from the block's start.
    pub fn allocate(&mut self, size: usize, align: usize) -> (r: Result<usize, HeapError>)
        requires
            heap_ok(old(self)@),
        ensures
            heap_ok(final(self)@),
            (r, final(self)@) == alloc_outcome(old(self)@, size, align),
            free_separated(old(self)@.free) ==> free_separated(final(self)@.free),
    {
        let ghost h = self@;
        proof {
            if free_separated(h.free) {
                lemma_alloc_keeps_free_separated(h, size, align);
            }
        }
        let size1 = if size == 0 {
            1
        } else {
            size
        };
        let align1 = if align < GRANULE {
            GRANULE
        } else {
            align
        };
        if !power_of_two(align1 as u64) {
            return Err(HeapError::Misaligned);
        }
        proof {
            lemma_first_fit(h.free, 0, size1 as int, align1 as int);
        }
        let mut i: usize = 0;
        while i < self.free.len()
            invariant
                self@ == h,
                old(self)@ == h,
                heap_ok(h),
                free_separated(h.free) ==> free_separated(alloc_outcome(h, size, align).1.free),
                i <= h.free.len(),
                align1 >= GRANULE,
                size1 == max_int(size as int, 1),
                align1 == max_int(align as int, GRANULE as int),
                is_power_of_two(align1 as int),
                first_fit(h.free, 0, size1 as int, align1 as int) == first_fit(
                    h.free,
                    i as int,
                    size1 as int,
                    align1 as int,
                ),
            decreases h.free.len() - i,
        {
            let (block_start, block_size) = self.free[i];
            proof {
                lemma_block_in(h.free, i as int, h.start as int, h.end as int);
            }
            let block_end = block_start + block_size;
            match fit(block_start, block_end, size1, align1) {
                Some((payload, fitted)) => {
                    proof {
                        assert(first_fit(h.free, i as int, size1 as int, align1 as int) == i);
                        lemma_round_up(block_start + SPAN_LEN, align1 as int);
                        lemma_round_up(payload + size1, GRANULE as int);
                        lemma_free_sum_nonneg(h.free);
                        lemma_span_sum_nonneg(h.spans);
                    }
                    let span_end = if block_end - fitted < GRANULE {
                        block_end
                    } else {
                        fitted
                    };
                    let span_len = span_end - block_start;
                    if span_end == block_end {
                        self.free.remove(i);
                        proof {
                            lemma_remove_block(h.free, i as int, h.start as int, h.end as int);
                            lemma_free_sum_remove(h.free, i as int);
                        }
                    } else {
                        let rest = (span_end, block_end - span_end);
                        self.free.set(i, rest);
                        proof {
                            lemma_shrink_block(h.free, i as int, h.start as int, h.end as int, rest);
                            lemma_free_sum_update(h.free, i as int, rest);
                        }
                    }
                    self.spans.push((payload - SPAN_LEN, block_start, span_len));
                    self.allocated = self.allocated + span_len;
                    proof {
                        assert(self.spans@.drop_last() =~= h.spans);
                        assert(max_int(size as int, 1) == size1);
                        assert(max_int(align as int, GRANULE as int) == align1);
                        assert(first_fit(h.free, 0, size1 as int, align1 as int) == i);
                    }
                    return Ok(payload);
                },
                None => {},
            }
            i = i + 1;
        }
        Err(HeapError::OutOfMemory)
    }

    /// Frees the allocation at `ptr`, reading its span from the header right
    /// before it and merging the span with the free blocks next to it. Refused
    /// requests leave the heap as it was.
    pub fn dealloc(&mut self, ptr: usize) -> (r: Result<(), HeapError>)
        requires
            heap_ok(old(self)@),
        ensures
            heap_ok(final(self)@),
            (r, final(self)@) == dealloc_outcome(old(self)@, ptr),
            free_separated(old(self)@.free) ==> free_separated(final(self)@.free),
    {
        let ghost h = self@;
        proof {
            if free_separated(h.free) {
                lemma_dealloc_keeps_free_separated(h, ptr);
            }
        }
        if ptr < SPAN_LEN {
            return Err(HeapError::InvalidPointer);
        }
        let header = ptr - SPAN_LEN;
        if header < self.start || self.end < SPAN_LEN || header > self.end - SPAN_LEN {
            return Err(HeapError::InvalidPointer);
        }
        let mut k: usize = 0;
        while k < self.spans.len() && self.spans[k].0 != header
            invariant
                self@ == h,
                k <= h.spans.len(),
                header_index(h.spans, 0, header as int) == header_index(h.spans, k as int, header as int),
            decreases h.spans.len() - k,
        {
            k = k + 1;
        }
        if k == self.spans.len() {
            return Err(HeapError::InvalidPointer);
        }
        let (_, s, len) = self.spans[k];
        if !(s % GRANULE == 0 && len % GRANULE == 0 && s >= self.start && s <= header && len
            <= self.end - s && header + SPAN_LEN <= s + len) {
            return Err(HeapError::InvalidPointer);
        }
        let e = s + len;
        match insert_free(&mut self.free, s, e, Ghost(h.start as int), Ghost(h.end as int)) {
            Ok(()) => {},
            Err(err) => {
                return Err(err);
            },
        }
        self.spans.remove(k);
        proof {
            lemma_span_sum_remove(h.spans, k as int);
        }
        self.allocated = self.allocated - len;
        Ok(())
    }

    /// What the heap holds: its size, the bytes allocated and free, how many
    /// free blocks there are and the largest.
    pub fn stats(&self) -> (r: HeapStats)
        requires
            heap_ok(self@),
        ensures
            r.total == self@.end - self@.start,
            r.allocated == self@.allocated,
            r.free == free_sum(self@.free),
            r.free_blocks == self@.free.len(),
            r.largest_free == largest(self@.free),
            r.allocated + r.free == r.total,
            r.largest_free <= r.free,
    {
        let ghost f = self.free@;
        let mut free: usize = 0;
        let mut largest_free: usize = 0;
        let mut i: usize = 0;
        proof {
            lemma_free_sum_nonneg(f);
            lemma_span_sum_nonneg(self.spans@);
            assert(f.subrange(0, 0) =~= Seq::<(usize, usize)>::empty());
        }
        while i < self.free.len()
            invariant
                self.free@ == f,
                heap_ok(self@),
                i <= f.len(),
                free == free_sum(f.subrange(0, i as int)),
                largest_free == largest(f.subrange(0, i as int)),
                free_sum(f) <= usize::MAX,
            decreases f.len() - i,
        {
            proof {
                lemma_free_sum_prefix(f, i as int);
                lemma_free_sum_prefix(f, i as int + 1);
                lemma_largest_prefix(f, i as int);
            }
            let size = self.free[i].1;
            free = free + size;
            if size > largest_free {
                largest_free = size;
            }
            i = i + 1;
        }
        proof {
            assert(f.subrange(0, i as int) =~= f);
            lemma_largest_bound(f);
        }
        HeapStats {
            total: self.end - self.start,
            allocated: self.allocated,
            free,
            free_blocks: self.free.len(),
            largest_free,
        }
    }
}

/// An allocation that succeeds lies inside the heap's region, past its
/// header, at an address aligned as asked (and at least to the granule).
pub proof fn lemma_allocation_in_region(h: HeapView, size: usize, align: usize)
    requires
        heap_ok(h),
        alloc_outcome(h, size, align).0 is Ok,
    ensures
        ({
            let p = alloc_outcome(h, size, align).0->Ok_0;
            &&& (p as int) % max_int(align as int, GRANULE as int) == 0
            &&& h.start + SPAN_LEN <= p
            &&& p + max_int(size as int, 1) <= h.end
        }),
{
    let size1 = max_int(size as int, 1);
    let align1 = max_int(align as int, GRANULE as int);
    let i = first_fit(h.free, 0, size1, align1);
    lemma_first_fit(h.free, 0, size1, align1);
    lemma_block_in(h.free, i, h.start as int, h.end as int);
    let b = h.free[i];
    lemma_round_up(b.0 + SPAN_LEN, align1);
    lemma_round_up(payload_at(b.0 as int, align1) + size1, GRANULE as int);
}

} // verus!
