//! What the heap's books promise of its live allocations: each lies in the
//! region, and no two of them, nor one of them and a free block, overlap.
//! Every allocation and every release keeps it so, and freeing what was just
//! allocated gives back exactly what the allocation took.

use vstd::prelude::*;
use crate::elf::plan::is_power_of_two;
use crate::memory::heap::{
    GRANULE, HeapError, HeapView, SPAN_LEN, alloc_outcome, block_end, blocks_before, dealloc_outcome,
    first_fit, free_list_ok, free_sum, header_index, heap_ok, insert_outcome, lemma_block_in,
    lemma_first_fit, lemma_free_sum_insert, lemma_free_sum_remove, lemma_free_sum_update,
    lemma_header_index, lemma_round_up, max_int, payload_at, round_up, span_ok, span_sum,
};

verus! {

/// The half-open ranges `[a, b)` and `[c, d)` share no address.
pub open spec fn apart(a: int, b: int, c: int, d: int) -> bool {
    b <= c || d <= a
}

/// The bytes `[start, start + len)` of a live span.
pub open spec fn span_start(s: (usize, usize, usize)) -> int {
    s.1 as int
}

pub open spec fn span_stop(s: (usize, usize, usize)) -> int {
    s.1 + s.2
}

/// Every live span lies in the region and holds its header, and no two live
/// spans, nor a live span and a free block, share an address.
pub open spec fn layout_ok(h: HeapView) -> bool {
    &&& forall|k: int| 0 <= k < h.spans.len() ==> span_ok(h, (#[trigger] h.spans[k]).0 as int, h.spans[k])
    &&& forall|k: int, l: int|
        0 <= k < h.spans.len() && 0 <= l < h.spans.len() && k != l ==> apart(
            span_start(#[trigger] h.spans[k]),
            span_stop(h.spans[k]),
            span_start(#[trigger] h.spans[l]),
            span_stop(h.spans[l]),
        )
    &&& forall|k: int, i: int|
        0 <= k < h.spans.len() && 0 <= i < h.free.len() ==> apart(
            span_start(#[trigger] h.spans[k]),
            span_stop(h.spans[k]),
            (#[trigger] h.free[i]).0 as int,
            block_end(h.free[i]),
        )
}

/// Two blocks of a free list share no address.
proof fn lemma_blocks_apart(f: Seq<(usize, usize)>, lo: int, hi: int, a: int, b: int)
    requires
        free_list_ok(f, lo, hi),
        0 <= a < f.len(),
        0 <= b < f.len(),
        a != b,
    ensures
        apart(f[a].0 as int, block_end(f[a]), f[b].0 as int, block_end(f[b])),
{
    reveal(free_list_ok);
}

/// An empty or freshly initialised heap has nothing live.
pub proof fn lemma_no_spans_layout_ok(h: HeapView)
    requires
        h.spans.len() == 0,
    ensures
        layout_ok(h),
{
}

/// An allocation keeps the layout: the new span is carved from one free
/// block, so it overlaps no live span and no free block that is left.
pub proof fn lemma_alloc_keeps_layout(h: HeapView, size: usize, align: usize)
    requires
        heap_ok(h),
        layout_ok(h),
    ensures
        layout_ok(alloc_outcome(h, size, align).1),
{
    let size1 = max_int(size as int, 1);
    let align1 = max_int(align as int, GRANULE as int);
    let i = first_fit(h.free, 0, size1, align1);
    lemma_first_fit(h.free, 0, size1, align1);
    if is_power_of_two(align1) && i < h.free.len() {
        lemma_block_in(h.free, i, h.start as int, h.end as int);
        let b = h.free[i];
        let payload = payload_at(b.0 as int, align1);
        lemma_round_up(b.0 + SPAN_LEN, align1);
        lemma_round_up(payload + size1, GRANULE as int);
        let fitted_end = round_up(payload + size1, GRANULE as int);
        let span_end_at = if block_end(b) - fitted_end < GRANULE {
            block_end(b)
        } else {
            fitted_end
        };
        let h2 = alloc_outcome(h, size, align).1;
        let n = h.spans.len();
        let fresh = h2.spans[n as int];
        assert(fresh == ((payload - SPAN_LEN) as usize, b.0, (span_end_at - b.0) as usize));
        assert(b.0 <= payload - SPAN_LEN && payload + size1 <= fitted_end && span_end_at
            <= block_end(b));
        assert((span_end_at - b.0) % 16 == 0);
        assert(span_ok(h2, fresh.0 as int, fresh));
        assert forall|k: int| 0 <= k < h2.spans.len() implies span_ok(
            h2,
            (#[trigger] h2.spans[k]).0 as int,
            h2.spans[k],
        ) by {
            if k < n {
                assert(h2.spans[k] == h.spans[k]);
            }
        }
        assert forall|k: int, l: int|
            0 <= k < h2.spans.len() && 0 <= l < h2.spans.len() && k != l implies apart(
            span_start(#[trigger] h2.spans[k]),
            span_stop(h2.spans[k]),
            span_start(#[trigger] h2.spans[l]),
            span_stop(h2.spans[l]),
        ) by {
            if k < n && l < n {
                assert(h2.spans[k] == h.spans[k] && h2.spans[l] == h.spans[l]);
            } else if k < n {
                assert(h2.spans[k] == h.spans[k]);
                assert(apart(span_start(h.spans[k]), span_stop(h.spans[k]), b.0 as int, block_end(b)));
            } else {
                assert(h2.spans[l] == h.spans[l]);
                assert(apart(span_start(h.spans[l]), span_stop(h.spans[l]), b.0 as int, block_end(b)));
            }
        }
        assert forall|k: int, m: int|
            0 <= k < h2.spans.len() && 0 <= m < h2.free.len() implies apart(
            span_start(#[trigger] h2.spans[k]),
            span_stop(h2.spans[k]),
            (#[trigger] h2.free[m]).0 as int,
            block_end(h2.free[m]),
        ) by {
            // The block that `m` names in the old list, if it is an old block.
            let old_m = if span_end_at == block_end(b) && m >= i {
                m + 1
            } else {
                m
            };
            if span_end_at != block_end(b) && m == i {
                // The tail left of the carved block lies in it.
                assert(h2.free[m] == (span_end_at as usize, (block_end(b) - span_end_at) as usize));
                if k < n {
                    assert(h2.spans[k] == h.spans[k]);
                    assert(apart(span_start(h.spans[k]), span_stop(h.spans[k]), b.0 as int, block_end(b)));
                }
            } else {
                assert(h2.free[m] == h.free[old_m]);
                if k < n {
                    assert(h2.spans[k] == h.spans[k]);
                    assert(apart(span_start(h.spans[k]), span_stop(h.spans[k]), h.free[old_m].0 as int, block_end(h.free[old_m])));
                } else {
                    lemma_blocks_apart(h.free, h.start as int, h.end as int, i, old_m);
                }
            }
        }
    }
}

/// A span next to or between blocks that a live span keeps clear of: the
/// live span keeps clear of their union too.
proof fn lemma_apart_union(x: int, y: int, a: int, b: int, c: int)
    requires
        x < y,
        a <= b <= c,
        apart(x, y, a, b),
        apart(x, y, b, c),
    ensures
        apart(x, y, a, c),
{
}

/// A release keeps the layout: the span goes back to the free list, merged
/// with the blocks next to it, and every other live span kept clear of all
/// of these pieces.
pub proof fn lemma_dealloc_keeps_layout(h: HeapView, ptr: usize)
    requires
        heap_ok(h),
        layout_ok(h),
    ensures
        layout_ok(dealloc_outcome(h, ptr).1),
{
    let header = ptr - SPAN_LEN;
    let k = header_index(h.spans, 0, header);
    lemma_header_index(h.spans, 0, header);
    if ptr >= SPAN_LEN && header >= h.start && header + SPAN_LEN <= h.end && k < h.spans.len()
        && span_ok(h, header, h.spans[k]) {
        let span = h.spans[k];
        let s = span.1 as int;
        let e = span.1 + span.2;
        let f = h.free;
        if insert_outcome(f, s, e) is Ok {
            let g = insert_outcome(f, s, e)->Ok_0;
            let j = blocks_before(f, 0, e);
            crate::memory::heap::lemma_blocks_before(f, 0, e);
            let h2 = dealloc_outcome(h, ptr).1;
            assert(h2.free == g);
            assert(h2.spans == h.spans.remove(k));
            // Where a remaining span sat in the old list.
            assert forall|m: int| 0 <= m < h2.spans.len() implies (#[trigger] h2.spans[m]) == h.spans[
                if m < k {
                    m
                } else {
                    m + 1
                }
            ] by {}
            assert forall|m: int| 0 <= m < h2.spans.len() implies span_ok(
                h2,
                (#[trigger] h2.spans[m]).0 as int,
                h2.spans[m],
            ) by {
                let o = if m < k {
                    m
                } else {
                    m + 1
                };
                assert(span_ok(h, h.spans[o].0 as int, h.spans[o]));
            }
            assert forall|m: int, l: int|
                0 <= m < h2.spans.len() && 0 <= l < h2.spans.len() && m != l implies apart(
                span_start(#[trigger] h2.spans[m]),
                span_stop(h2.spans[m]),
                span_start(#[trigger] h2.spans[l]),
                span_stop(h2.spans[l]),
            ) by {
                let om = if m < k {
                    m
                } else {
                    m + 1
                };
                let ol = if l < k {
                    l
                } else {
                    l + 1
                };
                assert(apart(
                    span_start(h.spans[om]),
                    span_stop(h.spans[om]),
                    span_start(h.spans[ol]),
                    span_stop(h.spans[ol]),
                ));
            }
            assert forall|m: int, i: int|
                0 <= m < h2.spans.len() && 0 <= i < h2.free.len() implies apart(
                span_start(#[trigger] h2.spans[m]),
                span_stop(h2.spans[m]),
                (#[trigger] h2.free[i]).0 as int,
                block_end(h2.free[i]),
            ) by {
                let om = if m < k {
                    m
                } else {
                    m + 1
                };
                let live = h.spans[om];
                let x = span_start(live);
                let y = span_stop(live);
                assert(span_ok(h, live.0 as int, live));
                assert(x < y);
                // The live span keeps clear of the released one.
                assert(apart(x, y, s, e));
                if j > 0 && block_end(f[j - 1]) == s {
                    assert(apart(x, y, f[j - 1].0 as int, block_end(f[j - 1])));
                    if j < f.len() && f[j].0 == e {
                        assert(apart(x, y, f[j].0 as int, block_end(f[j])));
                        if i == j - 1 {
                            lemma_apart_union(x, y, f[j - 1].0 as int, s, e);
                            lemma_apart_union(x, y, f[j - 1].0 as int, e, block_end(f[j]));
                        } else {
                            let oi = if i < j - 1 {
                                i
                            } else {
                                i + 1
                            };
                            assert(h2.free[i] == f[oi]);
                            assert(apart(x, y, f[oi].0 as int, block_end(f[oi])));
                        }
                    } else {
                        if i == j - 1 {
                            lemma_apart_union(x, y, f[j - 1].0 as int, s, e);
                        } else {
                            assert(h2.free[i] == f[i]);
                            assert(apart(x, y, f[i].0 as int, block_end(f[i])));
                        }
                    }
                } else if j < f.len() && f[j].0 == e {
                    assert(apart(x, y, f[j].0 as int, block_end(f[j])));
                    if i == j {
                        lemma_apart_union(x, y, s, e, block_end(f[j]));
                    } else {
                        assert(h2.free[i] == f[i]);
                        assert(apart(x, y, f[i].0 as int, block_end(f[i])));
                    }
                } else {
                    if i != j {
                        let oi = if i < j {
                            i
                        } else {
                            i - 1
                        };
                        assert(h2.free[i] == f[oi]);
                        assert(apart(x, y, f[oi].0 as int, block_end(f[oi])));
                    }
                }
            }
        }
    }
}

/// Live allocations never overlap: under the books' layout, the spans of
/// any two live allocations share no address.
pub proof fn lemma_live_spans_apart(h: HeapView, k: int, l: int)
    requires
        layout_ok(h),
        0 <= k < h.spans.len(),
        0 <= l < h.spans.len(),
        k != l,
    ensures
        apart(span_start(h.spans[k]), span_stop(h.spans[k]), span_start(h.spans[l]), span_stop(h.spans[l])),
{
}

proof fn lemma_header_index_at(spans: Seq<(usize, usize, usize)>, i: int, header: int, n: int)
    requires
        0 <= i <= n < spans.len(),
        spans[n].0 == header,
        forall|k: int| i <= k < n ==> (#[trigger] spans[k]).0 != header,
    ensures
        header_index(spans, i, header) == n,
    decreases n - i,
{
    if i < n {
        lemma_header_index_at(spans, i + 1, header, n);
    }
}

/// Putting `[s, e)` back adds its bytes to the free bytes.
proof fn lemma_insert_outcome_sum(f: Seq<(usize, usize)>, s: int, e: int, hi: int)
    requires
        insert_outcome(f, s, e) is Ok,
        0 <= s <= e <= hi <= usize::MAX,
        forall|m: int| 0 <= m < f.len() ==> block_end(#[trigger] f[m]) <= hi,
    ensures
        free_sum(insert_outcome(f, s, e)->Ok_0) == free_sum(f) + (e - s),
{
    let j = blocks_before(f, 0, e);
    crate::memory::heap::lemma_blocks_before(f, 0, e);
    if j > 0 && block_end(f[j - 1]) == s {
        let merged_len = if j < f.len() && f[j].0 == e {
            (f[j - 1].1 + (e - s) + f[j].1) as usize
        } else {
            (f[j - 1].1 + (e - s)) as usize
        };
        let merged = (f[j - 1].0, merged_len);
        lemma_free_sum_update(f, j - 1, merged);
        if j < f.len() && f[j].0 == e {
            lemma_free_sum_remove(f.update(j - 1, merged), j);
        }
    } else if j < f.len() && f[j].0 == e {
        lemma_free_sum_update(f, j, (s as usize, (e - s + f[j].1) as usize));
    } else {
        lemma_free_sum_insert(f, j, (s as usize, (e - s) as usize));
    }
}

/// Freeing an allocation right after making it is accepted and undoes it:
/// the live spans and the allocated bytes are as before, and so are the
/// free bytes (the free blocks may be merged differently).
pub proof fn lemma_dealloc_undoes_alloc(h: HeapView, size: usize, align: usize)
    requires
        heap_ok(h),
        layout_ok(h),
        alloc_outcome(h, size, align).0 is Ok,
    ensures
        ({
            let h2 = alloc_outcome(h, size, align).1;
            let p = alloc_outcome(h, size, align).0->Ok_0;
            let h3 = dealloc_outcome(h2, p).1;
            &&& dealloc_outcome(h2, p).0 is Ok
            &&& h3.spans == h.spans
            &&& h3.allocated == h.allocated
            &&& free_sum(h3.free) == free_sum(h.free)
        }),
{
    let size1 = max_int(size as int, 1);
    let align1 = max_int(align as int, GRANULE as int);
    let i = first_fit(h.free, 0, size1, align1);
    lemma_first_fit(h.free, 0, size1, align1);
    lemma_block_in(h.free, i, h.start as int, h.end as int);
    let b = h.free[i];
    let payload = payload_at(b.0 as int, align1);
    lemma_round_up(b.0 + SPAN_LEN, align1);
    lemma_round_up(payload + size1, GRANULE as int);
    let fitted_end = round_up(payload + size1, GRANULE as int);
    let span_end_at = if block_end(b) - fitted_end < GRANULE {
        block_end(b)
    } else {
        fitted_end
    };
    let h2 = alloc_outcome(h, size, align).1;
    let p = alloc_outcome(h, size, align).0->Ok_0;
    assert(p == payload);
    let n = h.spans.len() as int;
    let header = p - SPAN_LEN;
    let fresh = h2.spans[n];
    assert(fresh == (header as usize, b.0, (span_end_at - b.0) as usize));
    lemma_alloc_keeps_layout(h, size, align);
    // No older span has this header: each older span holds its own header and
    // keeps clear of the block the new span came from.
    assert forall|k: int| 0 <= k < n implies (#[trigger] h2.spans[k]).0 != header by {
        assert(h2.spans[k] == h.spans[k]);
        assert(span_ok(h, h.spans[k].0 as int, h.spans[k]));
        assert(apart(span_start(h.spans[k]), span_stop(h.spans[k]), b.0 as int, block_end(b)));
    }
    lemma_header_index_at(h2.spans, 0, header, n);
    assert(span_ok(h2, header, fresh));
    // The span keeps clear of every free block left.
    let s = b.0 as int;
    let e = span_end_at;
    let j = blocks_before(h2.free, 0, e);
    crate::memory::heap::lemma_blocks_before(h2.free, 0, e);
    assert forall|m: int| 0 <= m < j implies block_end(#[trigger] h2.free[m]) <= s by {
        assert(apart(span_start(h2.spans[n]), span_stop(h2.spans[n]), h2.free[m].0 as int, block_end(h2.free[m])));
    }
    assert(insert_outcome(h2.free, s, e) is Ok);
    assert forall|m: int| 0 <= m < h2.free.len() implies block_end(#[trigger] h2.free[m]) <= h.end by {
        let old_m = if span_end_at == block_end(b) && m >= i {
            m + 1
        } else {
            m
        };
        if !(span_end_at != block_end(b) && m == i) {
            assert(h2.free[m] == h.free[old_m]);
            lemma_block_in(h.free, old_m, h.start as int, h.end as int);
        }
    }
    lemma_insert_outcome_sum(h2.free, s, e, h.end as int);
    // What the allocation took from the free bytes.
    if span_end_at == block_end(b) {
        lemma_free_sum_remove(h.free, i);
    } else {
        lemma_free_sum_update(h.free, i, (span_end_at as usize, (block_end(b) - span_end_at) as usize));
    }
    assert(h2.spans.remove(n) =~= h.spans);
    crate::memory::heap::lemma_free_sum_nonneg(h.free);
    assert(h.allocated + (span_end_at - b.0) <= usize::MAX);
}


// ---------------------------------------------------------------------------
// Free blocks never touch.

/// No two free blocks touch: each ends strictly before the next one starts,
/// so free memory that is contiguous is always a single block.
#[verifier::opaque]
pub open spec fn free_separated(free: Seq<(usize, usize)>) -> bool {
    forall|i: int| 0 <= i < free.len() - 1 ==> block_end(#[trigger] free[i]) < free[i + 1].0
}

/// An allocation keeps the free blocks apart: it removes a block or moves a
/// block's start up within the block.
#[verifier::rlimit(30)]
pub proof fn lemma_alloc_keeps_free_separated(h: HeapView, size: usize, align: usize)
    requires
        heap_ok(h),
        free_separated(h.free),
    ensures
        free_separated(alloc_outcome(h, size, align).1.free),
{
    reveal(free_separated);
    let size1 = max_int(size as int, 1);
    let align1 = max_int(align as int, GRANULE as int);
    let i = first_fit(h.free, 0, size1, align1);
    lemma_first_fit(h.free, 0, size1, align1);
    if is_power_of_two(align1) && i < h.free.len() {
        let f = h.free;
        lemma_block_in(f, i, h.start as int, h.end as int);
        let b = f[i];
        let payload = payload_at(b.0 as int, align1);
        lemma_round_up(b.0 + SPAN_LEN, align1);
        lemma_round_up(payload + size1, GRANULE as int);
        let fitted_end = round_up(payload + size1, GRANULE as int);
        let span_end_at = if block_end(b) - fitted_end < GRANULE {
            block_end(b)
        } else {
            fitted_end
        };
        let g = alloc_outcome(h, size, align).1.free;
        if span_end_at == block_end(b) {
            assert forall|m: int| 0 <= m < g.len() - 1 implies block_end(#[trigger] g[m]) < g[m
                + 1].0 by {
                if m < i - 1 {
                    assert(g[m] == f[m] && g[m + 1] == f[m + 1]);
                } else if m == i - 1 {
                    assert(g[m] == f[i - 1] && g[m + 1] == f[i + 1]);
                    assert(block_end(f[i - 1]) < f[i].0);
                    assert(block_end(f[i]) < f[i + 1].0);
                } else {
                    assert(g[m] == f[m + 1] && g[m + 1] == f[m + 2]);
                }
            }
        } else {
            assert forall|m: int| 0 <= m < g.len() - 1 implies block_end(#[trigger] g[m]) < g[m
                + 1].0 by {
                if m == i - 1 {
                    assert(block_end(f[i - 1]) < f[i].0);
                } else if m == i {
                    assert(block_end(f[i]) < f[i + 1].0);
                } else {
                    assert(g[m] == f[m] && g[m + 1] == f[m + 1]);
                }
            }
        }
    }
}

/// Putting `[s, e)` back on a list of apart blocks keeps them apart: it
/// joins a block that ends at `s` and one that starts at `e`.
#[verifier::rlimit(30)]
proof fn lemma_insert_keeps_free_separated(f: Seq<(usize, usize)>, s: int, e: int, lo: int, hi: int)
    requires
        free_list_ok(f, lo, hi),
        free_separated(f),
        0 <= lo <= s < e <= hi <= usize::MAX,
        insert_outcome(f, s, e) is Ok,
    ensures
        free_separated(insert_outcome(f, s, e)->Ok_0),
{
    reveal(free_separated);
    let j = blocks_before(f, 0, e);
    crate::memory::heap::lemma_blocks_before(f, 0, e);
    let g = insert_outcome(f, s, e)->Ok_0;
    if j > 0 {
        lemma_block_in(f, j - 1, lo, hi);
        assert(!(block_end(f[j - 1]) > s));
    }
    if j < f.len() {
        lemma_block_in(f, j, lo, hi);
    }
    if j > 0 && block_end(f[j - 1]) == s {
        if j < f.len() && f[j].0 == e {
            let merged = (f[j - 1].0, (f[j - 1].1 + (e - s) + f[j].1) as usize);
            assert(block_end(merged) == block_end(f[j]));
            assert forall|m: int| 0 <= m < g.len() - 1 implies block_end(#[trigger] g[m]) < g[m
                + 1].0 by {
                if m < j - 2 {
                    assert(g[m] == f[m] && g[m + 1] == f[m + 1]);
                } else if m == j - 2 {
                    assert(g[m] == f[m] && g[m + 1] == merged);
                    assert(block_end(f[j - 2]) < f[j - 1].0);
                } else if m == j - 1 {
                    assert(g[m] == merged && g[m + 1] == f[j + 1]);
                    assert(block_end(f[j]) < f[j + 1].0);
                } else {
                    assert(g[m] == f[m + 1] && g[m + 1] == f[m + 2]);
                }
            }
        } else {
            let merged = (f[j - 1].0, (f[j - 1].1 + (e - s)) as usize);
            assert(block_end(merged) == e);
            assert forall|m: int| 0 <= m < g.len() - 1 implies block_end(#[trigger] g[m]) < g[m
                + 1].0 by {
                if m == j - 2 {
                    assert(block_end(f[j - 2]) < f[j - 1].0);
                } else if m == j - 1 {
                    assert(g[m + 1] == f[j]);
                } else {
                    assert(g[m] == f[m] && g[m + 1] == f[m + 1]);
                }
            }
        }
    } else if j < f.len() && f[j].0 == e {
        let merged = (s as usize, (e - s + f[j].1) as usize);
        assert(block_end(merged) == block_end(f[j]));
        assert forall|m: int| 0 <= m < g.len() - 1 implies block_end(#[trigger] g[m]) < g[m
            + 1].0 by {
            if m == j - 1 {
                assert(g[m] == f[j - 1] && g[m + 1] == merged);
            } else if m == j {
                assert(block_end(f[j]) < f[j + 1].0);
            } else {
                assert(g[m] == f[m] && g[m + 1] == f[m + 1]);
            }
        }
    } else {
        let fresh = (s as usize, (e - s) as usize);
        assert forall|m: int| 0 <= m < g.len() - 1 implies block_end(#[trigger] g[m]) < g[m
            + 1].0 by {
            if m < j - 1 {
                assert(g[m] == f[m] && g[m + 1] == f[m + 1]);
            } else if m == j - 1 {
                assert(g[m] == f[j - 1] && g[m + 1] == fresh);
            } else if m == j {
                assert(g[m] == fresh && g[m + 1] == f[j]);
            } else {
                assert(g[m] == f[m - 1] && g[m + 1] == f[m]);
                assert(block_end(f[m - 1]) < f[m].0);
            }
        }
    }
}

/// A release keeps the free blocks apart: the freed span is merged with the
/// free block that ends where it starts and with the one that starts where
/// it ends, so no two free blocks are ever left touching.
pub proof fn lemma_dealloc_keeps_free_separated(h: HeapView, ptr: usize)
    requires
        heap_ok(h),
        free_separated(h.free),
    ensures
        free_separated(dealloc_outcome(h, ptr).1.free),
{
    reveal(free_separated);
    let header = ptr - SPAN_LEN;
    let k = header_index(h.spans, 0, header);
    lemma_header_index(h.spans, 0, header);
    if ptr >= SPAN_LEN && header >= h.start && header + SPAN_LEN <= h.end && k < h.spans.len()
        && span_ok(h, header, h.spans[k]) {
        let span = h.spans[k];
        if insert_outcome(h.free, span.1 as int, span.1 + span.2) is Ok {
            lemma_insert_keeps_free_separated(
                h.free,
                span.1 as int,
                span.1 + span.2,
                h.start as int,
                h.end as int,
            );
        }
    }
}

/// Apart blocks in address order: their bytes and the gaps between them, at
/// least one byte each, fit between the first start and the last end.
proof fn lemma_separated_sum(f: Seq<(usize, usize)>)
    requires
        f.len() >= 1,
        free_separated(f),
    ensures
        free_sum(f) + (f.len() - 1) <= block_end(f.last()) - f[0].0,
    decreases f.len(),
{
    reveal(free_separated);
    let g = f.drop_last();
    if f.len() > 1 {
        assert forall|m: int| 0 <= m < g.len() - 1 implies block_end(#[trigger] g[m]) < g[m
            + 1].0 by {
            assert(g[m] == f[m] && g[m + 1] == f[m + 1]);
        }
        lemma_separated_sum(g);
        assert(g.last() == f[f.len() - 2]);
        assert(block_end(f[f.len() - 2]) < f[f.len() - 1].0);
    } else {
        assert(free_sum(g) == 0);
    }
}

/// Once no allocation is live, the heap is exactly as `init` leaves it: one
/// free block over the whole region and nothing allocated, so any request
/// that a fresh heap can serve is served.
pub proof fn lemma_all_freed_is_fresh(h: HeapView)
    requires
        heap_ok(h),
        free_separated(h.free),
        h.spans.len() == 0,
        h.start < h.end,
    ensures
        h == (HeapView {
            start: h.start,
            end: h.end,
            allocated: 0,
            free: seq![(h.start, (h.end - h.start) as usize)],
            spans: Seq::empty(),
        }),
{
    reveal(free_separated);
    let f = h.free;
    assert(span_sum(h.spans) == 0);
    if f.len() == 0 {
        assert(free_sum(f) == 0);
    }
    lemma_separated_sum(f);
    lemma_block_in(f, 0, h.start as int, h.end as int);
    lemma_block_in(f, f.len() - 1, h.start as int, h.end as int);
    assert(f.len() == 1);
    assert(free_sum(f.drop_last()) == 0);
    assert(f =~= seq![(h.start, (h.end - h.start) as usize)]);
    assert(h.spans =~= Seq::<(usize, usize, usize)>::empty());
}



/// The blocks before block `i` of an apart list end before it starts, and
/// the block after it starts after it ends.
proof fn lemma_neighbours_apart(f: Seq<(usize, usize)>, i: int, lo: int, hi: int)
    requires
        free_list_ok(f, lo, hi),
        free_separated(f),
        0 <= i < f.len(),
    ensures
        forall|m: int| 0 <= m < i ==> block_end(#[trigger] f[m]) <= f[i].0,
        i > 0 ==> block_end(f[i - 1]) < f[i].0,
        i + 1 < f.len() ==> block_end(f[i]) < f[i + 1].0,
        crate::memory::heap::block_ok(f[i], lo, hi),
{
    reveal(free_separated);
    reveal(free_list_ok);
}

/// Taking all of block `i` and putting it back gives the list it was taken from.
#[verifier::rlimit(30)]
proof fn lemma_reinsert_whole(f: Seq<(usize, usize)>, i: int, lo: int, hi: int)
    requires
        free_list_ok(f, lo, hi),
        free_separated(f),
        0 <= lo,
        hi <= usize::MAX,
        0 <= i < f.len(),
    ensures
        insert_outcome(f.remove(i), f[i].0 as int, block_end(f[i])) == Ok::<
            Seq<(usize, usize)>,
            HeapError,
        >(f),
{
    lemma_neighbours_apart(f, i, lo, hi);
    let g = f.remove(i);
    let s = f[i].0 as int;
    let e = block_end(f[i]);
    let j = blocks_before(g, 0, e);
    crate::memory::heap::lemma_blocks_before(g, 0, e);
    assert forall|m: int| 0 <= m < i implies block_end(#[trigger] g[m]) <= s by {
        assert(g[m] == f[m]);
    }
    if i > 0 {
        assert(g[i - 1] == f[i - 1]);
    }
    if i < g.len() {
        assert(g[i] == f[i + 1]);
    }
    assert(j == i);
    assert(!(exists|m: int| 0 <= m < j && block_end(#[trigger] g[m]) > s));
    assert(g.insert(i, (s as usize, (e - s) as usize)) =~= f);
}

/// Taking `[f[i].0, e)` off the front of block `i`, leaving the rest, and
/// putting it back gives the list it was taken from.
#[verifier::rlimit(30)]
proof fn lemma_reinsert_front(f: Seq<(usize, usize)>, i: int, e: int, lo: int, hi: int)
    requires
        free_list_ok(f, lo, hi),
        free_separated(f),
        0 <= lo,
        hi <= usize::MAX,
        0 <= i < f.len(),
        f[i].0 < e < block_end(f[i]),
    ensures
        insert_outcome(
            f.update(i, (e as usize, (block_end(f[i]) - e) as usize)),
            f[i].0 as int,
            e,
        ) == Ok::<Seq<(usize, usize)>, HeapError>(f),
{
    lemma_neighbours_apart(f, i, lo, hi);
    let g = f.update(i, (e as usize, (block_end(f[i]) - e) as usize));
    let s = f[i].0 as int;
    let j = blocks_before(g, 0, e);
    crate::memory::heap::lemma_blocks_before(g, 0, e);
    assert forall|m: int| 0 <= m < i implies block_end(#[trigger] g[m]) <= s by {
        assert(g[m] == f[m]);
    }
    if i > 0 {
        assert(g[i - 1] == f[i - 1]);
    }
    assert(j == i);
    assert(!(exists|m: int| 0 <= m < j && block_end(#[trigger] g[m]) > s));
    assert(g.update(i, (s as usize, (e - s + g[i].1) as usize)) =~= f);
}

/// Freeing an allocation right after making it gives back the heap exactly
/// as it was, free blocks included: the span rejoins the rest of the block it
/// was carved from, and the block before stays apart from it.
#[verifier::rlimit(30)]
pub proof fn lemma_dealloc_restores_heap(h: HeapView, size: usize, align: usize)
    requires
        heap_ok(h),
        layout_ok(h),
        free_separated(h.free),
        alloc_outcome(h, size, align).0 is Ok,
    ensures
        dealloc_outcome(alloc_outcome(h, size, align).1, alloc_outcome(h, size, align).0->Ok_0)
            == (Ok::<(), HeapError>(()), h),
{
    reveal(free_separated);
    lemma_dealloc_undoes_alloc(h, size, align);
    let size1 = max_int(size as int, 1);
    let align1 = max_int(align as int, GRANULE as int);
    let f = h.free;
    let i = first_fit(f, 0, size1, align1);
    lemma_first_fit(f, 0, size1, align1);
    lemma_block_in(f, i, h.start as int, h.end as int);
    let b = f[i];
    let payload = payload_at(b.0 as int, align1);
    lemma_round_up(b.0 + SPAN_LEN, align1);
    lemma_round_up(payload + size1, GRANULE as int);
    let fitted_end = round_up(payload + size1, GRANULE as int);
    let span_end_at = if block_end(b) - fitted_end < GRANULE {
        block_end(b)
    } else {
        fitted_end
    };
    let h2 = alloc_outcome(h, size, align).1;
    let p = alloc_outcome(h, size, align).0->Ok_0;
    let n = h.spans.len() as int;
    let header = p - SPAN_LEN;
    assert(h2.spans[n] == (header as usize, b.0, (span_end_at - b.0) as usize));
    lemma_header_index(h2.spans, 0, header);
    let k = header_index(h2.spans, 0, header);
    // The span that the release finds is the one just made.
    assert(k == n) by {
        if k < n {
            assert(h2.spans[k] == h.spans[k]);
            assert(span_ok(h, h.spans[k].0 as int, h.spans[k]));
            assert(apart(span_start(h.spans[k]), span_stop(h.spans[k]), b.0 as int, block_end(b)));
        }
    }
    if span_end_at == block_end(b) {
        lemma_reinsert_whole(f, i, h.start as int, h.end as int);
    } else {
        lemma_reinsert_front(f, i, span_end_at, h.start as int, h.end as int);
    }
    let h3 = dealloc_outcome(h2, p).1;
    assert(h3.free == f);
}

} // verus!
