//! Fixed-capacity validation of user segment layout and permissions.

use vstd::prelude::*;
use crate::elf::header::{
    ElfError, ElfImage, ElfImageView, MAX_LOAD_SEGMENTS, PF_R, PF_W, PF_X, PT_LOAD, ProgramHeader,
    ProgramHeaderFields, header_fields_at,
};
use crate::vm::{PAGE_SIZE, PageFlags, VirtAddr, VirtPage, is_canonical};

use crate::elf::page_copy::{PageCopy, page_copy_spec};

verus! {

/// Lowest virtual address available to a user image.
pub const USER_START: u64 = 0x0010_0000;

/// Exclusive upper bound of the user address range.
pub const USER_END: u64 = 0x4000_0000;

/// First virtual address occupied by the 64 KiB user stack.
pub const USER_STACK_BOTTOM: u64 = 0x3fff_0000;

/// Exclusive upper bound of the user stack.
pub const USER_STACK_TOP: u64 = 0x4000_0000;

/// First virtual address of the unmapped guard page.
pub const USER_GUARD_BOTTOM: u64 = 0x3ffe_f000;

/// Maximum page-rounded size of all loadable user segments.
pub const MAX_USER_IMAGE_PAGES: usize = 2048;

/// `n` is 1, or twice a power of two.
pub open spec fn is_power_of_two(n: int) -> bool
    decreases n,
{
    if n <= 0 {
        false
    } else if n == 1 {
        true
    } else {
        n % 2 == 0 && is_power_of_two(n / 2)
    }
}

/// The half-open ranges `[a, b)` and `[c, d)` share an address.
pub open spec fn ranges_overlap_spec(a: int, b: int, c: int, d: int) -> bool {
    a < d && c < b
}

/// A validated segment, as numbers.
pub struct SegmentView {
    pub file_offset: nat,
    pub file_len: nat,
    pub virtual_start: u64,
    pub memory_len: nat,
    pub first_page: u64,
    pub page_count: nat,
    pub page_offset: nat,
    pub read: bool,
    pub write: bool,
    pub execute: bool,
}

/// The shape every validated segment has: its file bytes fit in its memory
/// size and in the address space, its first page is the page of its start,
/// and its pages cover all of its memory.
pub open spec fn segment_wf(s: SegmentView) -> bool {
    &&& s.file_len <= s.memory_len
    &&& s.file_offset + s.file_len <= usize::MAX
    &&& s.first_page % 4096 == 0
    &&& s.first_page <= s.virtual_start < s.first_page + 4096
    &&& s.page_offset == s.virtual_start - s.first_page
    &&& s.memory_len > 0 ==> s.virtual_start + s.memory_len <= s.first_page + s.page_count * 4096
    &&& s.first_page + s.page_count * 4096 <= USER_END
}

impl SegmentView {
    /// The end of the page-rounded mapping.
    pub open spec fn mapped_end(self) -> int {
        self.first_page + self.page_count * PAGE_SIZE
    }

    pub open spec fn contains(self, address: int) -> bool {
        self.virtual_start <= address < self.virtual_start + self.memory_len
    }
}

/// What validating the program header `h` of an image of `len` bytes yields.
#[verifier::opaque]
pub open spec fn segment_of(len: int, h: ProgramHeaderFields) -> Result<SegmentView, ElfError> {
    let a = h.alignment as int;
    let vaddr = h.virtual_address as int;
    let file_end = h.offset + h.file_size;
    let memory_end = vaddr + h.memory_size;
    let page_start = vaddr - vaddr % PAGE_SIZE as int;
    let page_end = if h.memory_size == 0 {
        page_start
    } else {
        memory_end + 4095 - (memory_end + 4095) % 4096
    };
    let readable = h.flags & PF_R != 0;
    let writable = h.flags & PF_W != 0;
    let executable = h.flags & PF_X != 0;
    if h.file_size > h.memory_size {
        Err(ElfError::FilesLargerThanMemory)
    } else if a > 1 && !is_power_of_two(a) {
        Err(ElfError::InvalidAlignment)
    } else if a > 1 && vaddr % a != (h.offset as int) % a {
        Err(ElfError::IncongruentAddressAndOffset)
    } else if file_end > u64::MAX || file_end > usize::MAX || file_end > len {
        Err(ElfError::RangeOverflow)
    } else if memory_end > u64::MAX || !is_canonical(h.virtual_address) || h.memory_size
        > usize::MAX {
        Err(ElfError::RangeOverflow)
    } else if vaddr < USER_START || vaddr >= USER_END || memory_end > USER_END {
        Err(ElfError::OutsideUserRange)
    } else if ranges_overlap_spec(page_start, page_end, USER_GUARD_BOTTOM as int, USER_STACK_TOP as int) {
        Err(ElfError::StackCollision)
    } else if writable && executable {
        Err(ElfError::WritableExecutable)
    } else if writable && !readable || !readable && !executable {
        Err(ElfError::InvalidPermissions)
    } else {
        Ok(
            SegmentView {
                file_offset: h.offset as nat,
                file_len: h.file_size as nat,
                virtual_start: h.virtual_address,
                memory_len: h.memory_size as nat,
                first_page: page_start as u64,
                page_count: ((page_end - page_start) / 4096) as nat,
                page_offset: (vaddr - page_start) as nat,
                read: readable,
                write: writable,
                execute: executable,
            },
        )
    }
}

/// One program header's effect on the segments planned so far and their page total.
#[verifier::opaque]
pub open spec fn plan_step(len: int, h: ProgramHeaderFields, segments: Seq<SegmentView>, total: int) -> Result<
    (Seq<SegmentView>, int),
    ElfError,
> {
    if h.kind != PT_LOAD {
        Ok((segments, total))
    } else if segments.len() == MAX_LOAD_SEGMENTS {
        Err(ElfError::TooManyLoadSegments)
    } else {
        match segment_of(len, h) {
            Err(e) => Err(e),
            Ok(seg) => if exists|j: int|
                0 <= j < segments.len() && ranges_overlap_spec(
                    seg.first_page as int,
                    seg.mapped_end(),
                    #[trigger] segments[j].first_page as int,
                    segments[j].mapped_end(),
                ) {
                Err(ElfError::PageOverlap)
            } else if total + seg.page_count > MAX_USER_IMAGE_PAGES {
                Err(ElfError::ImagePageLimitExceeded)
            } else {
                Ok((segments.push(seg), total + seg.page_count))
            },
        }
    }
}

/// The segments and page total after the program headers `i..count` of the
/// table at `base`, starting from `segments` and `total`.
pub open spec fn plan_fold(
    s: Seq<u8>,
    base: int,
    count: int,
    i: int,
    segments: Seq<SegmentView>,
    total: int,
) -> Result<(Seq<SegmentView>, int), ElfError>
    decreases count - i,
{
    if i >= count {
        Ok((segments, total))
    } else {
        match plan_step(s.len() as int, header_fields_at(s, base + 56 * i), segments, total) {
            Err(e) => Err(e),
            Ok(next) => plan_fold(s, base, count, i + 1, next.0, next.1),
        }
    }
}

/// A plan, as numbers.
pub struct PlanView {
    pub segments: Seq<SegmentView>,
    pub entry: u64,
    pub total_user_pages: nat,
}

/// What planning the validated image `image` yields.
pub open spec fn plan_of(image: ElfImageView) -> Result<PlanView, ElfError> {
    match plan_fold(
        image.bytes,
        image.program_header_offset as int,
        image.program_header_count as int,
        0,
        Seq::empty(),
        0,
    ) {
        Err(e) => Err(e),
        Ok(done) => if exists|j: int|
            0 <= j < done.0.len() && #[trigger] done.0[j].execute && done.0[j].contains(
                image.entry as int,
            ) {
            Ok(PlanView { segments: done.0, entry: image.entry, total_user_pages: done.1 as nat })
        } else {
            Err(ElfError::EntryNotExecutable)
        },
    }
}

/// A fully validated loadable ELF segment.
#[derive(Debug, Clone, Copy, PartialEq, Eq, Structural)]
pub struct LoadSegment {
    file_offset: usize,
    file_len: usize,
    virtual_start: VirtAddr,
    memory_len: usize,
    first_page: VirtPage,
    page_count: usize,
    page_offset: usize,
    flags: PageFlags,
}

impl View for LoadSegment {
    type V = SegmentView;

    closed spec fn view(&self) -> SegmentView {
        SegmentView {
            file_offset: self.file_offset as nat,
            file_len: self.file_len as nat,
            virtual_start: self.virtual_start.spec_value(),
            memory_len: self.memory_len as nat,
            first_page: self.first_page.spec_start(),
            page_count: self.page_count as nat,
            page_offset: self.page_offset as nat,
            read: self.flags.spec_read(),
            write: self.flags.spec_write(),
            execute: self.flags.spec_execute(),
        }
    }
}

impl LoadSegment {
    #[verifier::type_invariant]
    closed spec fn user_mapping(self) -> bool {
        &&& self.flags.spec_user()
        &&& self.first_page.spec_start() + self.page_count * 4096 <= USER_END
        &&& self.virtual_start.spec_value() + self.memory_len <= USER_END
        &&& segment_wf(self@)
    }

    /// Returns the first source-byte offset in the ELF image.
    pub fn file_offset(&self) -> (r: usize)
        ensures
            r == self@.file_offset,
    {
        self.file_offset
    }

    /// Returns the number of source bytes copied from the ELF image.
    pub fn file_len(&self) -> (r: usize)
        ensures
            r == self@.file_len,
    {
        self.file_len
    }

    /// Returns the exact, possibly unaligned, virtual segment start.
    pub fn virtual_start(&self) -> (r: VirtAddr)
        ensures
            r.spec_value() == self@.virtual_start,
    {
        self.virtual_start
    }

    /// Returns the segment size in memory, including zero-filled bytes.
    pub fn memory_len(&self) -> (r: usize)
        ensures
            r == self@.memory_len,
    {
        self.memory_len
    }

    /// Returns the first page covered by the segment mapping.
    pub fn first_page(&self) -> (r: VirtPage)
        ensures
            r.spec_start() == self@.first_page,
    {
        self.first_page
    }

    /// Returns the number of page-rounded pages covered by the segment.
    pub fn page_count(&self) -> (r: usize)
        ensures
            r == self@.page_count,
            r <= USER_END / 4096,
    {
        proof {
            use_type_invariant(self);
        }
        self.page_count
    }

    /// Returns the segment start offset within its first page.
    pub fn page_offset(&self) -> (r: usize)
        ensures
            r == self@.page_offset,
    {
        self.page_offset
    }

    /// Returns the minimal validated user PTE permissions.
    pub fn flags(&self) -> (r: PageFlags)
        ensures
            r.spec_read() == self@.read,
            r.spec_write() == self@.write,
            r.spec_execute() == self@.execute,
            r.spec_user(),
    {
        proof {
            use_type_invariant(self);
        }
        self.flags
    }

    /// The copy of file bytes into page `page_index` of this segment, if the
    /// segment's file bytes reach into that page.
    pub fn page_copy(&self, page_index: usize) -> (r: Option<PageCopy>)
        requires
            page_index < self@.page_count,
        ensures
            segment_wf(self@),
            match page_copy_spec(self@, page_index as int) {
                None => r is None,
                Some(c) => r matches Some(p) && p.page_start == c.0 && p.destination_offset
                    == c.1 && p.source_start == c.2 && p.len == c.3,
            },
    {
        proof {
            use_type_invariant(self);
            assert(page_index * 4096 <= self.page_count * 4096) by (nonlinear_arith)
                requires
                    page_index < self.page_count,
            ;
        }
        let virtual_start = self.virtual_start.as_u64();
        let page_start = self.first_page.start().as_u64() + page_index as u64 * 4096;
        let file_end = virtual_start + self.file_len as u64;
        let copy_start = if page_start < virtual_start {
            virtual_start
        } else {
            page_start
        };
        let copy_end = if page_start + 4096 < file_end {
            page_start + 4096
        } else {
            file_end
        };
        if copy_start >= copy_end {
            return None;
        }
        Some(
            PageCopy {
                page_start,
                destination_offset: (copy_start - page_start) as usize,
                source_start: self.file_offset + (copy_start - virtual_start) as usize,
                len: (copy_end - copy_start) as usize,
            },
        )
    }

    fn mapped_end(&self) -> (r: u64)
        ensures
            r == self@.mapped_end(),
    {
        proof {
            use_type_invariant(self);
        }
        self.first_page.start().as_u64() + self.page_count as u64 * 4096
    }

    fn contains_memory_address(&self, address: u64) -> (r: bool)
        ensures
            r == self@.contains(address as int),
    {
        proof {
            use_type_invariant(self);
        }
        let start = self.virtual_start.as_u64();
        start <= address && address < start + self.memory_len as u64
    }
}

pub(crate) fn power_of_two(n: u64) -> (r: bool)
    ensures
        r == is_power_of_two(n as int),
{
    if n == 0 {
        return false;
    }
    let mut x = n;
    while x > 1 && x % 2 == 0
        invariant
            x >= 1,
            is_power_of_two(n as int) == is_power_of_two(x as int),
        decreases x,
    {
        x = x / 2;
    }
    x == 1
}

fn ranges_overlap(first_start: u64, first_end: u64, second_start: u64, second_end: u64) -> (r: bool)
    ensures
        r == ranges_overlap_spec(
            first_start as int,
            first_end as int,
            second_start as int,
            second_end as int,
        ),
{
    first_start < second_end && second_start < first_end
}

fn validate_segment(bytes: &[u8], header: ProgramHeader) -> (r: Result<LoadSegment, ElfError>)
    ensures
        match r {
            Ok(seg) => segment_of(bytes@.len() as int, header@) == Ok::<SegmentView, ElfError>(seg@),
            Err(e) => segment_of(bytes@.len() as int, header@) == Err::<SegmentView, ElfError>(e),
        },
{
    reveal(segment_of);
    let len = bytes.len();
    if header.file_size() > header.memory_size() {
        return Err(ElfError::FilesLargerThanMemory);
    }
    let alignment = header.alignment();
    if alignment > 1 && !power_of_two(alignment) {
        return Err(ElfError::InvalidAlignment);
    }
    if alignment > 1 && header.virtual_address() % alignment != header.offset() % alignment {
        return Err(ElfError::IncongruentAddressAndOffset);
    }
    if header.offset() > u64::MAX - header.file_size() {
        return Err(ElfError::RangeOverflow);
    }
    let file_end = header.offset() + header.file_size();
    if file_end > usize::MAX as u64 {
        return Err(ElfError::RangeOverflow);
    }
    let file_offset = header.offset() as usize;
    let file_len = header.file_size() as usize;
    if file_end as usize > len {
        return Err(ElfError::RangeOverflow);
    }
    if header.virtual_address() > u64::MAX - header.memory_size() {
        return Err(ElfError::RangeOverflow);
    }
    let memory_end = header.virtual_address() + header.memory_size();
    let virtual_start = match VirtAddr::try_new(header.virtual_address()) {
        Ok(address) => address,
        Err(_) => return Err(ElfError::RangeOverflow),
    };
    if header.memory_size() > usize::MAX as u64 {
        return Err(ElfError::RangeOverflow);
    }
    let memory_len = header.memory_size() as usize;
    if header.virtual_address() < USER_START || header.virtual_address() >= USER_END || memory_end
        > USER_END {
        return Err(ElfError::OutsideUserRange);
    }
    let first_page = VirtPage::containing(virtual_start);
    let page_start = first_page.start().as_u64();
    let page_end = if header.memory_size() == 0 {
        page_start
    } else {
        memory_end + 4095 - (memory_end + 4095) % 4096
    };
    if ranges_overlap(page_start, page_end, USER_GUARD_BOTTOM, USER_STACK_TOP) {
        return Err(ElfError::StackCollision);
    }
    if header.writable() && header.executable() {
        return Err(ElfError::WritableExecutable);
    }
    if header.writable() && !header.readable() || !header.readable() && !header.executable() {
        return Err(ElfError::InvalidPermissions);
    }
    let flags = match PageFlags::new(header.readable(), header.writable(), header.executable(), true) {
        Ok(flags) => flags,
        Err(_) => return Err(ElfError::InvalidPermissions),
    };
    let page_count = ((page_end - page_start) / 4096) as usize;
    let page_offset = (header.virtual_address() - page_start) as usize;
    proof {
        assert(page_end <= USER_END);
        assert((page_end - page_start) % 4096 == 0);
        assert(page_start + page_count * 4096 == page_end);
        assert(first_page.spec_start() % 4096 == 0);
    }
    Ok(
        LoadSegment {
            file_offset,
            file_len,
            virtual_start,
            memory_len,
            first_page,
            page_count,
            page_offset,
            flags,
        },
    )
}

/// A fixed-capacity, allocation-free plan for loading an ELF image.
#[derive(Debug)]
pub struct LoadPlan {
    segments: Vec<LoadSegment>,
    entry: VirtAddr,
    total_user_pages: usize,
}

impl View for LoadPlan {
    type V = PlanView;

    closed spec fn view(&self) -> PlanView {
        PlanView {
            segments: self.segments@.map_values(|s: LoadSegment| s@),
            entry: self.entry.spec_value(),
            total_user_pages: self.total_user_pages as nat,
        }
    }
}

pub open spec fn segment_views(segments: Seq<LoadSegment>) -> Seq<SegmentView> {
    segments.map_values(|seg: LoadSegment| seg@)
}

/// Applies one program header to the plan under construction.
#[verifier::loop_isolation(false)]
fn apply_header(
    bytes: &[u8],
    header: ProgramHeader,
    segments: &mut Vec<LoadSegment>,
    total: &mut usize,
) -> (r: Result<(), ElfError>)
    requires
        old(segments)@.len() <= MAX_LOAD_SEGMENTS,
        *old(total) <= MAX_USER_IMAGE_PAGES,
    ensures
        final(segments)@.len() <= MAX_LOAD_SEGMENTS,
        *final(total) <= MAX_USER_IMAGE_PAGES,
        match r {
            Ok(()) => plan_step(
                bytes@.len() as int,
                header@,
                segment_views(old(segments)@),
                *old(total) as int,
            ) == Ok::<(Seq<SegmentView>, int), ElfError>(
                (segment_views(final(segments)@), *final(total) as int),
            ),
            Err(e) => plan_step(
                bytes@.len() as int,
                header@,
                segment_views(old(segments)@),
                *old(total) as int,
            ) == Err::<(Seq<SegmentView>, int), ElfError>(e),
        },
{
    reveal(plan_step);
    let ghost segs = segment_views(segments@);
    if !header.is_load() {
        return Ok(());
    }
    if segments.len() == MAX_LOAD_SEGMENTS {
        return Err(ElfError::TooManyLoadSegments);
    }
    let segment = match validate_segment(bytes, header) {
        Ok(seg) => seg,
        Err(e) => return Err(e),
    };
    let start = segment.first_page().start().as_u64();
    let end = segment.mapped_end();
    let mut j: usize = 0;
    while j < segments.len()
        invariant
            j <= segments@.len(),
            segs == segment_views(segments@),
            start == segment@.first_page,
            end == segment@.mapped_end(),
            forall|k: int|
                0 <= k < j ==> !ranges_overlap_spec(
                    start as int,
                    end as int,
                    #[trigger] segs[k].first_page as int,
                    segs[k].mapped_end(),
                ),
        decreases segments@.len() - j,
    {
        let existing = &segments[j];
        assert(segs[j as int] == segments@[j as int]@);
        if ranges_overlap(start, end, existing.first_page().start().as_u64(), existing.mapped_end()) {
            return Err(ElfError::PageOverlap);
        }
        j = j + 1;
    }
    if *total + segment.page_count() > MAX_USER_IMAGE_PAGES {
        return Err(ElfError::ImagePageLimitExceeded);
    }
    *total = *total + segment.page_count();
    segments.push(segment);
    assert(segment_views(segments@) =~= segs.push(segment@));
    Ok(())
}

impl LoadPlan {
    /// Validates every load segment before returning a materialization plan.
    pub fn new(image: &ElfImage<'_>) -> (r: Result<Self, ElfError>)
        ensures
            match r {
                Ok(plan) => plan_of(image@) == Ok::<PlanView, ElfError>(plan@),
                Err(e) => plan_of(image@) == Err::<PlanView, ElfError>(e),
            },
    {
        let headers = image.program_headers();
        let bytes = image.bytes();
        let entry = image.entry();
        let ghost s = image@.bytes;
        let ghost base = image@.program_header_offset as int;
        let ghost count = image@.program_header_count as int;
        let mut segments: Vec<LoadSegment> = Vec::new();
        let mut total: usize = 0;
        assert(segment_views(segments@) =~= Seq::<SegmentView>::empty());
        let mut i: usize = 0;
        while i < headers.len()
            invariant
                i <= headers@.len(),
                headers@.len() == count,
                s == image@.bytes,
                base == image@.program_header_offset,
                count == image@.program_header_count,
                bytes@ == s,
                forall|k: int|
                    0 <= k < headers@.len() ==> (#[trigger] headers@[k] matches Ok(h) && h@
                        == header_fields_at(s, base + 56 * k)),
                segments@.len() <= MAX_LOAD_SEGMENTS,
                total <= MAX_USER_IMAGE_PAGES,
                plan_fold(s, base, count, 0, Seq::empty(), 0) == plan_fold(
                    s,
                    base,
                    count,
                    i as int,
                    segment_views(segments@),
                    total as int,
                ),
            decreases headers@.len() - i,
        {
            let header = match headers[i] {
                Ok(h) => h,
                Err(e) => return Err(e),
            };
            let ghost before = segment_views(segments@);
            let ghost before_total = total as int;
            assert(header@ == header_fields_at(s, base + 56 * i));
            assert(plan_fold(s, base, count, i as int, before, before_total) == match plan_step(
                s.len() as int,
                header@,
                before,
                before_total,
            ) {
                Err(e) => Err(e),
                Ok(next) => plan_fold(s, base, count, i + 1, next.0, next.1),
            });
            match apply_header(bytes, header, &mut segments, &mut total) {
                Ok(()) => {},
                Err(e) => {
                    return Err(e);
                },
            }
            i = i + 1;
        }
        let ghost segs = segment_views(segments@);
        assert(plan_fold(s, base, count, 0, Seq::empty(), 0) == Ok::<
            (Seq<SegmentView>, int),
            ElfError,
        >((segs, total as int)));
        let address = entry.as_u64();
        let mut j: usize = 0;
        while j < segments.len()
            invariant
                j <= segments@.len(),
                segs == segment_views(segments@),
                address == image@.entry,
                entry.spec_value() == image@.entry,
                plan_fold(image@.bytes, image@.program_header_offset as int, image@.program_header_count as int, 0, Seq::empty(), 0)
                    == Ok::<(Seq<SegmentView>, int), ElfError>((segs, total as int)),
                forall|k: int|
                    0 <= k < j ==> !(#[trigger] segs[k].execute && segs[k].contains(address as int)),
            decreases segments@.len() - j,
        {
            let segment = &segments[j];
            assert(segs[j as int] == segments@[j as int]@);
            if segment.flags().execute() && segment.contains_memory_address(address) {
                assert(segs[j as int].execute && segs[j as int].contains(address as int));
                let plan = Self { segments, entry, total_user_pages: total };
                assert(plan@.segments == segs);
                return Ok(plan);
            }
            j = j + 1;
        }
        Err(ElfError::EntryNotExecutable)
    }

    /// Returns the number of loadable segments in the plan.
    pub fn len(&self) -> (r: usize)
        ensures
            r == self@.segments.len(),
    {
        self.segments.len()
    }

    /// Returns whether the plan has no loadable segments.
    pub fn is_empty(&self) -> (r: bool)
        ensures
            r == (self@.segments.len() == 0),
    {
        self.segments.len() == 0
    }

    /// Returns the validated executable entry address.
    pub fn entry(&self) -> (r: VirtAddr)
        ensures
            r.spec_value() == self@.entry,
    {
        self.entry
    }

    /// Returns the total number of distinct page-rounded segment pages.
    pub fn total_user_pages(&self) -> (r: usize)
        ensures
            r == self@.total_user_pages,
    {
        self.total_user_pages
    }

    /// The validated loadable segments in program-header order.
    pub fn segments(&self) -> (r: &[LoadSegment])
        ensures
            r@.map_values(|seg: LoadSegment| seg@) == self@.segments,
    {
        self.segments.as_slice()
    }
}

/// No two of `segments` map a common page.
pub open spec fn pages_apart(segments: Seq<SegmentView>) -> bool {
    forall|a: int, b: int|
        0 <= a < segments.len() && 0 <= b < segments.len() && a != b ==> !ranges_overlap_spec(
            (#[trigger] segments[a]).first_page as int,
            segments[a].mapped_end(),
            (#[trigger] segments[b]).first_page as int,
            segments[b].mapped_end(),
        )
}

proof fn lemma_plan_fold_apart(
    s: Seq<u8>,
    base: int,
    count: int,
    i: int,
    segments: Seq<SegmentView>,
    total: int,
)
    requires
        pages_apart(segments),
    ensures
        plan_fold(s, base, count, i, segments, total) matches Ok(done) ==> pages_apart(done.0),
    decreases count - i,
{
    if i < count {
        let h = header_fields_at(s, base + 56 * i);
        reveal(plan_step);
        if let Ok(next) = plan_step(s.len() as int, h, segments, total) {
            if next.0 != segments {
                let seg = next.0.last();
                assert(next.0 == segments.push(seg));
                assert forall|a: int, b: int|
                    0 <= a < next.0.len() && 0 <= b < next.0.len() && a != b implies !ranges_overlap_spec(
                    (#[trigger] next.0[a]).first_page as int,
                    next.0[a].mapped_end(),
                    (#[trigger] next.0[b]).first_page as int,
                    next.0[b].mapped_end(),
                ) by {
                    if a == segments.len() {
                        assert(next.0[b] == segments[b]);
                        assert(!ranges_overlap_spec(
                            seg.first_page as int,
                            seg.mapped_end(),
                            segments[b].first_page as int,
                            segments[b].mapped_end(),
                        ));
                    } else if b == segments.len() {
                        assert(next.0[a] == segments[a]);
                        assert(!ranges_overlap_spec(
                            seg.first_page as int,
                            seg.mapped_end(),
                            segments[a].first_page as int,
                            segments[a].mapped_end(),
                        ));
                    } else {
                        assert(next.0[a] == segments[a] && next.0[b] == segments[b]);
                    }
                }
            }
            lemma_plan_fold_apart(s, base, count, i + 1, next.0, next.1);
        }
    }
}

/// A load plan never maps one page twice: the pages of any two of its
/// segments are apart.
pub proof fn lemma_planned_pages_apart(image: ElfImageView)
    ensures
        plan_of(image) matches Ok(plan) ==> pages_apart(plan.segments),
{
    lemma_plan_fold_apart(
        image.bytes,
        image.program_header_offset as int,
        image.program_header_count as int,
        0,
        Seq::empty(),
        0,
    );
}

} // verus!
