//! Checked ELF64 header and program-header parsing.

use vstd::prelude::*;
use crate::bytes::{le16, le32, le64, read_le16, read_le32, read_le64};
use crate::vm::{VirtAddr, is_canonical};

verus! {

pub const ELF_HEADER_LEN: usize = 64;

pub const PROGRAM_HEADER_LEN: usize = 56;

pub const PT_LOAD: u32 = 1;

pub const PF_X: u32 = 1;

pub const PF_W: u32 = 2;

pub const PF_R: u32 = 4;

/// Maximum number of loadable segments accepted from one ELF image.
pub const MAX_LOAD_SEGMENTS: usize = 8;

/// A typed rejection returned while parsing or planning an ELF image.
#[derive(Debug, Clone, Copy, PartialEq, Eq, Structural)]
pub enum ElfError {
    /// The input does not begin with the ELF magic bytes.
    BadMagic,
    /// The ELF object is not ELF64.
    UnsupportedClass,
    /// The ELF object is not little-endian.
    UnsupportedEndian,
    /// An ELF identification or header version is unsupported.
    UnsupportedVersion,
    /// The ELF object is not a static executable.
    UnsupportedType,
    /// The ELF object does not target RISC-V.
    UnsupportedMachine,
    /// The ELF header is truncated or reports the wrong size.
    HeaderSize,
    /// Program headers do not have the ELF64 size.
    ProgramHeaderSize,
    /// The program-header table cannot be represented or is outside the input.
    ProgramHeaderTableOutOfBounds,
    /// The image has more loadable segments than fixed storage permits.
    TooManyLoadSegments,
    /// A loadable segment has more file bytes than memory bytes.
    FilesLargerThanMemory,
    /// A segment alignment is neither zero, one, nor a power of two.
    InvalidAlignment,
    /// A segment virtual address and file offset violate ELF congruence.
    IncongruentAddressAndOffset,
    /// A file, memory, address, or page-range calculation cannot be represented.
    RangeOverflow,
    /// A segment does not fit completely inside the user image range.
    OutsideUserRange,
    /// Two segment mappings overlap after rounding to pages.
    PageOverlap,
    /// A segment requests both write and execute permission.
    WritableExecutable,
    /// Segment flags cannot form a valid RISC-V leaf mapping.
    InvalidPermissions,
    /// A segment mapping intersects the guard page or user stack.
    StackCollision,
    /// The entry point is outside every executable segment memory range.
    EntryNotExecutable,
    /// Page-rounded load segments exceed the fixed image-page budget.
    ImagePageLimitExceeded,
}

/// The fields of one ELF64 program header, as numbers.
pub struct ProgramHeaderFields {
    pub kind: u32,
    pub flags: u32,
    pub offset: u64,
    pub virtual_address: u64,
    pub file_size: u64,
    pub memory_size: u64,
    pub alignment: u64,
}

/// The program header whose 56 bytes start at offset `o` of `s`.
pub open spec fn header_fields_at(s: Seq<u8>, o: int) -> ProgramHeaderFields {
    ProgramHeaderFields {
        kind: le32(s, o) as u32,
        flags: le32(s, o + 4) as u32,
        offset: le64(s, o + 8) as u64,
        virtual_address: le64(s, o + 16) as u64,
        file_size: le64(s, o + 32) as u64,
        memory_size: le64(s, o + 40) as u64,
        alignment: le64(s, o + 48) as u64,
    }
}

/// How many of the first `n` program headers of the table at `base` are `PT_LOAD`.
pub open spec fn load_count(s: Seq<u8>, base: int, n: nat) -> nat
    decreases n,
{
    if n == 0 {
        0
    } else {
        load_count(s, base, (n - 1) as nat) + if le32(s, base + 56 * (n - 1)) == PT_LOAD {
            1nat
        } else {
            0nat
        }
    }
}

proof fn lemma_load_count_monotone(s: Seq<u8>, base: int, m: nat, n: nat)
    requires
        m <= n,
    ensures
        load_count(s, base, m) <= load_count(s, base, n),
    decreases n,
{
    if m < n {
        lemma_load_count_monotone(s, base, m, (n - 1) as nat);
    }
}

/// The first check of the fixed header fields, the table bounds, and the
/// entry address that the bytes `s` fail.
pub open spec fn elf_header_error(s: Seq<u8>) -> Option<ElfError> {
    if s.len() < ELF_HEADER_LEN {
        Some(ElfError::HeaderSize)
    } else if !(s[0] == 0x7f && s[1] == 0x45 && s[2] == 0x4c && s[3] == 0x46) {
        Some(ElfError::BadMagic)
    } else if s[4] != 2 {
        Some(ElfError::UnsupportedClass)
    } else if s[5] != 1 {
        Some(ElfError::UnsupportedEndian)
    } else if s[6] != 1 || le32(s, 20) != 1 {
        Some(ElfError::UnsupportedVersion)
    } else if le16(s, 16) != 2 {
        Some(ElfError::UnsupportedType)
    } else if le16(s, 18) != 243 {
        Some(ElfError::UnsupportedMachine)
    } else if le16(s, 52) != ELF_HEADER_LEN {
        Some(ElfError::HeaderSize)
    } else if le16(s, 54) != PROGRAM_HEADER_LEN {
        Some(ElfError::ProgramHeaderSize)
    } else if le64(s, 32) > usize::MAX || le64(s, 32) + 56 * le16(s, 56) > usize::MAX || le64(s, 32)
        + 56 * le16(s, 56) > s.len() {
        Some(ElfError::ProgramHeaderTableOutOfBounds)
    } else if !is_canonical(le64(s, 24) as u64) {
        Some(ElfError::RangeOverflow)
    } else {
        None
    }
}

/// The first check that the bytes `s` fail as a static RISC-V ELF64 executable
/// with at most `MAX_LOAD_SEGMENTS` loadable segments.
pub open spec fn elf_parse_error(s: Seq<u8>) -> Option<ElfError> {
    if elf_header_error(s) is Some {
        elf_header_error(s)
    } else if load_count(s, le64(s, 32), le16(s, 56) as nat) > MAX_LOAD_SEGMENTS {
        Some(ElfError::TooManyLoadSegments)
    } else {
        None
    }
}

/// A validated image, as numbers: its bytes, its entry address, and where its
/// program-header table lies.
pub struct ElfImageView {
    pub bytes: Seq<u8>,
    pub entry: u64,
    pub program_header_offset: nat,
    pub program_header_count: nat,
}

/// The fields needed from one ELF64 program header.
#[derive(Debug, Clone, Copy, PartialEq, Eq, Structural)]
pub struct ProgramHeader {
    kind: u32,
    flags: u32,
    offset: u64,
    virtual_address: u64,
    file_size: u64,
    memory_size: u64,
    alignment: u64,
}

impl View for ProgramHeader {
    type V = ProgramHeaderFields;

    closed spec fn view(&self) -> ProgramHeaderFields {
        ProgramHeaderFields {
            kind: self.kind,
            flags: self.flags,
            offset: self.offset,
            virtual_address: self.virtual_address,
            file_size: self.file_size,
            memory_size: self.memory_size,
            alignment: self.alignment,
        }
    }
}

impl ProgramHeader {
    fn parse(bytes: &[u8], at: usize) -> (r: Self)
        requires
            at + PROGRAM_HEADER_LEN <= bytes.len(),
        ensures
            r@ == header_fields_at(bytes@, at as int),
    {
        Self {
            kind: read_le32(bytes, at),
            flags: read_le32(bytes, at + 4),
            offset: read_le64(bytes, at + 8),
            virtual_address: read_le64(bytes, at + 16),
            file_size: read_le64(bytes, at + 32),
            memory_size: read_le64(bytes, at + 40),
            alignment: read_le64(bytes, at + 48),
        }
    }

    /// Returns whether this header describes a `PT_LOAD` segment.
    pub fn is_load(self) -> (r: bool)
        ensures
            r == (self@.kind == PT_LOAD),
    {
        self.kind == PT_LOAD
    }

    /// Returns the file offset of this segment.
    pub fn offset(self) -> (r: u64)
        ensures
            r == self@.offset,
    {
        self.offset
    }

    /// Returns the virtual start address of this segment.
    pub fn virtual_address(self) -> (r: u64)
        ensures
            r == self@.virtual_address,
    {
        self.virtual_address
    }

    /// Returns the number of bytes stored in the ELF file.
    pub fn file_size(self) -> (r: u64)
        ensures
            r == self@.file_size,
    {
        self.file_size
    }

    /// Returns the number of bytes occupied in memory.
    pub fn memory_size(self) -> (r: u64)
        ensures
            r == self@.memory_size,
    {
        self.memory_size
    }

    /// Returns the ELF alignment requirement.
    pub fn alignment(self) -> (r: u64)
        ensures
            r == self@.alignment,
    {
        self.alignment
    }

    /// Returns whether the segment requests read permission.
    pub fn readable(self) -> (r: bool)
        ensures
            r == (self@.flags & PF_R != 0),
    {
        self.flags & PF_R != 0
    }

    /// Returns whether the segment requests write permission.
    pub fn writable(self) -> (r: bool)
        ensures
            r == (self@.flags & PF_W != 0),
    {
        self.flags & PF_W != 0
    }

    /// Returns whether the segment requests execute permission.
    pub fn executable(self) -> (r: bool)
        ensures
            r == (self@.flags & PF_X != 0),
    {
        self.flags & PF_X != 0
    }
}

/// A checked cursor over a program-header table: it yields `count` headers,
/// or one out-of-bounds error and then nothing.
pub struct ProgramHeaders<'a> {
    bytes: &'a [u8],
    next_offset: usize,
    remaining: usize,
}

impl<'a> ProgramHeaders<'a> {
    pub closed spec fn spec_bytes(&self) -> Seq<u8> {
        self.bytes@
    }

    pub closed spec fn spec_next_offset(&self) -> usize {
        self.next_offset
    }

    pub closed spec fn spec_remaining(&self) -> usize {
        self.remaining
    }

    pub fn new(bytes: &'a [u8], offset: usize, count: usize) -> (r: Self)
        ensures
            r.spec_bytes() == bytes@,
            r.spec_next_offset() == offset,
            r.spec_remaining() == count,
    {
        Self { bytes, next_offset: offset, remaining: count }
    }

    fn fail(&mut self) -> (r: Option<Result<ProgramHeader, ElfError>>)
        ensures
            r == Some(Err::<ProgramHeader, ElfError>(ElfError::ProgramHeaderTableOutOfBounds)),
            final(self).spec_remaining() == 0,
            final(self).spec_bytes() == old(self).spec_bytes(),
            final(self).spec_next_offset() == old(self).spec_next_offset(),
    {
        self.remaining = 0;
        Some(Err(ElfError::ProgramHeaderTableOutOfBounds))
    }

    /// The next header, an out-of-bounds error once the table leaves the
    /// input (after which the cursor is exhausted), or `None` at the end.
    pub fn next(&mut self) -> (r: Option<Result<ProgramHeader, ElfError>>)
        ensures
            final(self).spec_bytes() == old(self).spec_bytes(),
            old(self).spec_remaining() == 0 ==> r is None && *final(self) == *old(self),
            old(self).spec_remaining() > 0 && old(self).spec_next_offset() + PROGRAM_HEADER_LEN
                > old(self).spec_bytes().len() ==> r == Some(
                Err::<ProgramHeader, ElfError>(ElfError::ProgramHeaderTableOutOfBounds),
            ) && final(self).spec_remaining() == 0,
            old(self).spec_remaining() > 0 && old(self).spec_next_offset() + PROGRAM_HEADER_LEN
                <= old(self).spec_bytes().len() ==> (r matches Some(Ok(h)) && h@ == header_fields_at(
                old(self).spec_bytes(),
                old(self).spec_next_offset() as int,
            ) && final(self).spec_next_offset() == old(self).spec_next_offset() + PROGRAM_HEADER_LEN
                && final(self).spec_remaining() == old(self).spec_remaining() - 1),
    {
        if self.remaining == 0 {
            return None;
        }
        let len = self.bytes.len();
        if self.next_offset > usize::MAX - PROGRAM_HEADER_LEN {
            return self.fail();
        }
        let end = self.next_offset + PROGRAM_HEADER_LEN;
        if end > len {
            return self.fail();
        }
        let header = ProgramHeader::parse(self.bytes, self.next_offset);
        self.next_offset = end;
        self.remaining = self.remaining - 1;
        Some(Ok(header))
    }
}

/// A borrowed, validated ELF64 executable image.
#[derive(Debug, Clone, Copy, PartialEq, Eq)]
pub struct ElfImage<'a> {
    bytes: &'a [u8],
    entry: VirtAddr,
    program_header_offset: usize,
    program_header_count: usize,
}

impl<'a> View for ElfImage<'a> {
    type V = ElfImageView;

    closed spec fn view(&self) -> ElfImageView {
        ElfImageView {
            bytes: self.bytes@,
            entry: self.entry.spec_value(),
            program_header_offset: self.program_header_offset as nat,
            program_header_count: self.program_header_count as nat,
        }
    }
}

/// The image that `elf_parse_error` accepts for the bytes `s`.
pub open spec fn elf_image_of(s: Seq<u8>) -> ElfImageView {
    ElfImageView {
        bytes: s,
        entry: le64(s, 24) as u64,
        program_header_offset: le64(s, 32) as nat,
        program_header_count: le16(s, 56) as nat,
    }
}

impl<'a> ElfImage<'a> {
    #[verifier::type_invariant]
    closed spec fn table_fits(self) -> bool {
        &&& self.program_header_offset + PROGRAM_HEADER_LEN * self.program_header_count
            <= self.bytes@.len()
        &&& is_canonical(self.entry.spec_value())
    }

    /// Parses and validates the ELF header and program-header table envelope.
    pub fn parse(bytes: &'a [u8]) -> (r: Result<Self, ElfError>)
        ensures
            match r {
                Ok(image) => elf_parse_error(bytes@) is None && image@ == elf_image_of(bytes@),
                Err(e) => elf_parse_error(bytes@) == Some(e),
            },
    {
        if bytes.len() < ELF_HEADER_LEN {
            return Err(ElfError::HeaderSize);
        }
        if !(bytes[0] == 0x7f && bytes[1] == 0x45 && bytes[2] == 0x4c && bytes[3] == 0x46) {
            return Err(ElfError::BadMagic);
        }
        if bytes[4] != 2 {
            return Err(ElfError::UnsupportedClass);
        }
        if bytes[5] != 1 {
            return Err(ElfError::UnsupportedEndian);
        }
        if bytes[6] != 1 || read_le32(bytes, 20) != 1 {
            return Err(ElfError::UnsupportedVersion);
        }
        if read_le16(bytes, 16) != 2 {
            return Err(ElfError::UnsupportedType);
        }
        if read_le16(bytes, 18) != 243 {
            return Err(ElfError::UnsupportedMachine);
        }
        if read_le16(bytes, 52) as usize != ELF_HEADER_LEN {
            return Err(ElfError::HeaderSize);
        }
        if read_le16(bytes, 54) as usize != PROGRAM_HEADER_LEN {
            return Err(ElfError::ProgramHeaderSize);
        }
        let offset64 = read_le64(bytes, 32);
        if offset64 > usize::MAX as u64 {
            return Err(ElfError::ProgramHeaderTableOutOfBounds);
        }
        let program_header_offset = offset64 as usize;
        let program_header_count = read_le16(bytes, 56) as usize;
        let table_len = program_header_count * PROGRAM_HEADER_LEN;
        if program_header_offset > usize::MAX - table_len {
            return Err(ElfError::ProgramHeaderTableOutOfBounds);
        }
        let table_end = program_header_offset + table_len;
        if table_end > bytes.len() {
            return Err(ElfError::ProgramHeaderTableOutOfBounds);
        }
        let entry = match VirtAddr::try_new(read_le64(bytes, 24)) {
            Ok(entry) => entry,
            Err(_) => return Err(ElfError::RangeOverflow),
        };
        let mut load_count_so_far: usize = 0;
        let mut index: usize = 0;
        while index < program_header_count
            invariant
                elf_header_error(bytes@) is None,
                entry.spec_value() == le64(bytes@, 24),
                index <= program_header_count,
                program_header_count == le16(bytes@, 56),
                program_header_offset == le64(bytes@, 32),
                program_header_offset + 56 * program_header_count <= bytes@.len(),
                bytes@.len() == bytes.len(),
                load_count_so_far == load_count(
                    bytes@,
                    program_header_offset as int,
                    index as nat,
                ),
                load_count_so_far <= MAX_LOAD_SEGMENTS,
            decreases program_header_count - index,
        {
            let at = program_header_offset + index * PROGRAM_HEADER_LEN;
            let header = ProgramHeader::parse(bytes, at);
            if header.is_load() {
                load_count_so_far = load_count_so_far + 1;
                if load_count_so_far > MAX_LOAD_SEGMENTS {
                    proof {
                        lemma_load_count_monotone(
                            bytes@,
                            program_header_offset as int,
                            (index + 1) as nat,
                            program_header_count as nat,
                        );
                    }
                    return Err(ElfError::TooManyLoadSegments);
                }
            }
            index = index + 1;
        }
        Ok(Self { bytes, entry, program_header_offset, program_header_count })
    }

    /// Returns the executable entry address from the ELF header.
    pub fn entry(&self) -> (r: VirtAddr)
        ensures
            r.spec_value() == self@.entry,
            is_canonical(self@.entry),
    {
        proof {
            use_type_invariant(&*self);
        }
        self.entry
    }

    /// Returns the number of entries in the program-header table.
    pub fn program_header_count(&self) -> (r: usize)
        ensures
            r == self@.program_header_count,
    {
        self.program_header_count
    }

    /// Returns every program header in table order.
    pub fn program_headers(&self) -> (r: Vec<Result<ProgramHeader, ElfError>>)
        ensures
            r@.len() == self@.program_header_count,
            forall|i: int|
                0 <= i < r@.len() ==> (#[trigger] r@[i] matches Ok(h) && h@ == header_fields_at(
                    self@.bytes,
                    self@.program_header_offset + 56 * i,
                )),
    {
        proof {
            use_type_invariant(&*self);
        }
        let mut cursor = ProgramHeaders::new(
            self.bytes,
            self.program_header_offset,
            self.program_header_count,
        );
        let mut headers: Vec<Result<ProgramHeader, ElfError>> = Vec::new();
        while headers.len() < self.program_header_count
            invariant
                headers@.len() <= self.program_header_count,
                cursor.spec_bytes() == self.bytes@,
                cursor.spec_remaining() == self.program_header_count - headers@.len(),
                cursor.spec_next_offset() == self.program_header_offset + 56 * headers@.len(),
                self.program_header_offset + 56 * self.program_header_count <= self.bytes@.len(),
                forall|i: int|
                    0 <= i < headers@.len() ==> (#[trigger] headers@[i] matches Ok(h) && h@
                        == header_fields_at(self.bytes@, self.program_header_offset + 56 * i)),
            decreases self.program_header_count - headers@.len(),
        {
            let next = cursor.next();
            headers.push(next.unwrap());
        }
        headers
    }

    pub(crate) fn bytes(&self) -> (r: &'a [u8])
        ensures
            r@ == self@.bytes,
    {
        self.bytes
    }
}

} // verus!
