//! Where the file bytes of a segment go when it is loaded: page by page,
//! which slice of the image is copied to which offset of the fresh, zeroed
//! frame. Everything else of the segment's memory stays zero.

use vstd::prelude::*;
use crate::elf::plan::{SegmentView, segment_wf};

verus! {

/// One copy into a page of a segment: the page's virtual start, where in
/// the page the bytes go, and which bytes of the image they are.
#[derive(Debug, Clone, Copy, PartialEq, Eq, Structural)]
pub struct PageCopy {
    pub page_start: u64,
    pub destination_offset: usize,
    pub source_start: usize,
    pub len: usize,
}

/// The copy into page `index` of segment `s`, as (page start, offset in the
/// page, image offset, length): the part of the page that the segment's file
/// bytes cover, if any.
pub open spec fn page_copy_spec(s: SegmentView, index: int) -> Option<(int, int, int, int)> {
    let page_start = s.first_page + index * 4096;
    let file_end = s.virtual_start + s.file_len;
    let copy_start = if page_start < s.virtual_start {
        s.virtual_start as int
    } else {
        page_start
    };
    let copy_end = if page_start + 4096 < file_end {
        page_start + 4096
    } else {
        file_end
    };
    if copy_start >= copy_end {
        None
    } else {
        Some(
            (
                page_start,
                copy_start - page_start,
                s.file_offset + copy_start - s.virtual_start,
                copy_end - copy_start,
            ),
        )
    }
}

/// Byte `i` of the segment's file bytes is written by the copy `c`.
pub open spec fn copies_byte(s: SegmentView, c: (int, int, int, int), i: int) -> bool {
    c.2 <= s.file_offset + i < c.2 + c.3
}

/// Every copy stays inside its page and takes only the segment's file bytes,
/// and puts each of them at its place: image byte `file_offset + k` at
/// virtual address `virtual_start + k`.
pub proof fn lemma_page_copy_in_place(s: SegmentView, index: int)
    requires
        segment_wf(s),
        0 <= index < s.page_count,
    ensures
        page_copy_spec(s, index) matches Some(c) ==> {
            &&& 0 <= c.1 && c.1 + c.3 <= 4096
            &&& c.3 > 0
            &&& s.file_offset <= c.2 && c.2 + c.3 <= s.file_offset + s.file_len
            &&& c.0 + c.1 == s.virtual_start + (c.2 - s.file_offset)
        },
{
}

/// Each of the segment's file bytes is copied by exactly one page: the page
/// of its virtual address.
pub proof fn lemma_file_byte_copied_once(s: SegmentView, i: int)
    requires
        segment_wf(s),
        0 <= i < s.file_len,
    ensures
        ({
            let page = (s.virtual_start + i - s.first_page) / 4096;
            &&& 0 <= page < s.page_count
            &&& page_copy_spec(s, page) matches Some(c) && copies_byte(s, c, i)
            &&& forall|other: int|
                0 <= other < s.page_count && other != page ==> !(#[trigger] page_copy_spec(
                    s,
                    other,
                ) matches Some(c) && copies_byte(s, c, i))
        }),
{
    let address = s.virtual_start + i - s.first_page;
    let page = address / 4096;
    assert(page * 4096 <= address < page * 4096 + 4096) by (nonlinear_arith)
        requires
            page == address / 4096,
            address >= 0,
    ;
    assert(page * 4096 < s.page_count * 4096);
    assert(page < s.page_count) by (nonlinear_arith)
        requires
            page * 4096 < s.page_count * 4096,
    ;
    assert forall|other: int|
        0 <= other < s.page_count && other != page implies !(#[trigger] page_copy_spec(
        s,
        other,
    ) matches Some(c) && copies_byte(s, c, i)) by {
        if other < page {
            assert(other * 4096 + 4096 <= page * 4096) by (nonlinear_arith)
                requires
                    other < page,
            ;
        } else {
            assert(page * 4096 + 4096 <= other * 4096) by (nonlinear_arith)
                requires
                    page < other,
            ;
        }
    }
}

} // verus!
