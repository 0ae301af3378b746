//! The 96-byte header of a boot bundle (MiniBundle) and its layout rules.

use vstd::prelude::*;
use crate::bytes::{encode_u16_le, encode_u64_le, le16, le64, le_bytes, read_le16, read_le64};

verus! {

/// The bundle magic `MINICTR\0`.
pub const BOOT_MAGIC: [u8; 8] = [0x4d, 0x49, 0x4e, 0x49, 0x43, 0x54, 0x52, 0x00];

pub const BOOT_ABI_MAJOR: u16 = 1;

pub const BOOT_ABI_MINOR: u16 = 0;

pub const BOOT_HEADER_LEN: usize = 96;

pub const BUNDLE_MAX_LEN: u64 = 8388608;

pub open spec fn boot_magic() -> Seq<u8> {
    seq![0x4du8, 0x49u8, 0x4eu8, 0x49u8, 0x43u8, 0x54u8, 0x52u8, 0x00u8]
}

#[derive(Debug, Clone, Copy, PartialEq, Eq, Structural)]
pub struct ByteRange {
    pub offset: u64,
    pub len: u64,
}

#[derive(Debug, Clone, Copy, PartialEq, Eq)]
pub struct BootHeader {
    pub total_len: u64,
    pub manifest: ByteRange,
    pub elf: ByteRange,
    pub digest: [u8; 32],
}

#[derive(Debug, Clone, Copy, PartialEq, Eq, Structural)]
pub enum BootHeaderError {
    WrongLength,
    WrongMagic,
    UnsupportedMajor,
    UnsupportedMinor,
    WrongHeaderLength,
    NonZeroFlags,
    NonZeroReserved,
    TooLarge,
    ManifestNotAtHeaderEnd,
    ElfNotAligned,
    RangeOverflow,
    RangesOverlap,
    ElfOffsetMismatch,
    TotalLengthMismatch,
}

/// The number of zero bytes that pad `end` up to a multiple of eight.
pub open spec fn padding_to_eight(end: int) -> int {
    (8 - end % 8) % 8
}

/// The first layout rule that the given fields break, in checking order.
pub open spec fn layout_error(total: int, m_off: int, m_len: int, e_off: int, e_len: int) -> Option<
    BootHeaderError,
> {
    if total > BUNDLE_MAX_LEN {
        Some(BootHeaderError::TooLarge)
    } else if m_off != BOOT_HEADER_LEN {
        Some(BootHeaderError::ManifestNotAtHeaderEnd)
    } else if m_off + m_len > u64::MAX {
        Some(BootHeaderError::RangeOverflow)
    } else if e_off % 8 != 0 {
        Some(BootHeaderError::ElfNotAligned)
    } else if e_off + e_len > u64::MAX {
        Some(BootHeaderError::RangeOverflow)
    } else if m_off + m_len > e_off {
        Some(BootHeaderError::RangesOverlap)
    } else if m_off + m_len + padding_to_eight(m_off + m_len) > u64::MAX {
        Some(BootHeaderError::RangeOverflow)
    } else if e_off != m_off + m_len + padding_to_eight(m_off + m_len) {
        Some(BootHeaderError::ElfOffsetMismatch)
    } else if e_off + e_len != total {
        Some(BootHeaderError::TotalLengthMismatch)
    } else {
        None
    }
}

pub open spec fn header_layout_error(h: BootHeader) -> Option<BootHeaderError> {
    layout_error(
        h.total_len as int,
        h.manifest.offset as int,
        h.manifest.len as int,
        h.elf.offset as int,
        h.elf.len as int,
    )
}

/// The first check that the 96 bytes `s` fail, in wire order, ending with the layout rules.
pub open spec fn decode_error(s: Seq<u8>) -> Option<BootHeaderError> {
    if s.len() != BOOT_HEADER_LEN {
        Some(BootHeaderError::WrongLength)
    } else if s.subrange(0, 8) != boot_magic() {
        Some(BootHeaderError::WrongMagic)
    } else if le16(s, 8) != BOOT_ABI_MAJOR {
        Some(BootHeaderError::UnsupportedMajor)
    } else if le16(s, 10) != BOOT_ABI_MINOR {
        Some(BootHeaderError::UnsupportedMinor)
    } else if le16(s, 12) != BOOT_HEADER_LEN {
        Some(BootHeaderError::WrongHeaderLength)
    } else if le16(s, 14) != 0 {
        Some(BootHeaderError::NonZeroFlags)
    } else if exists|i: int| 88 <= i < 96 && s[i] != 0 {
        Some(BootHeaderError::NonZeroReserved)
    } else {
        layout_error(le64(s, 16), le64(s, 24), le64(s, 32), le64(s, 40), le64(s, 48))
    }
}

/// `h` holds the fields that the header bytes `s` carry.
pub open spec fn fields_of(h: BootHeader, s: Seq<u8>) -> bool {
    &&& h.total_len == le64(s, 16)
    &&& h.manifest.offset == le64(s, 24)
    &&& h.manifest.len == le64(s, 32)
    &&& h.elf.offset == le64(s, 40)
    &&& h.elf.len == le64(s, 48)
    &&& h.digest@ == s.subrange(56, 88)
}

/// The 96 wire bytes of a header.
pub open spec fn header_encoding(h: BootHeader) -> Seq<u8> {
    boot_magic() + le_bytes(BOOT_ABI_MAJOR as int, 2) + le_bytes(BOOT_ABI_MINOR as int, 2)
        + le_bytes(BOOT_HEADER_LEN as int, 2) + le_bytes(0, 2) + le_bytes(h.total_len as int, 8)
        + le_bytes(h.manifest.offset as int, 8) + le_bytes(h.manifest.len as int, 8) + le_bytes(
        h.elf.offset as int,
        8,
    ) + le_bytes(h.elf.len as int, 8) + h.digest@ + Seq::new(8, |i: int| 0u8)
}

fn copy_into(buf: &mut [u8; 96], at: usize, src: &[u8])
    requires
        at + src@.len() <= 96,
    ensures
        final(buf)@ == old(buf)@.subrange(0, at as int) + src@ + old(buf)@.subrange(
            at + src@.len(),
            96,
        ),
{
    let mut i: usize = 0;
    while i < src.len()
        invariant
            at + src@.len() <= 96,
            i <= src@.len(),
            buf@.len() == 96,
            forall|j: int| 0 <= j < at ==> buf@[j] == old(buf)@[j],
            forall|j: int| at + src@.len() <= j < 96 ==> buf@[j] == old(buf)@[j],
            forall|j: int| 0 <= j < i ==> buf@[at + j] == src@[j],
        decreases src@.len() - i,
    {
        buf[at + i] = src[i];
        i += 1;
    }
    assert(buf@ =~= old(buf)@.subrange(0, at as int) + src@ + old(buf)@.subrange(
        at + src@.len(),
        96,
    ));
}

fn checked_add(a: u64, b: u64) -> (r: Option<u64>)
    ensures
        a + b <= u64::MAX ==> r == Some((a + b) as u64),
        a + b > u64::MAX ==> r is None,
{
    a.checked_add(b)
}

impl BootHeader {
    /// Decodes and validates exactly 96 header bytes.
    pub fn decode(bytes: &[u8]) -> (r: Result<Self, BootHeaderError>)
        ensures
            match r {
                Ok(h) => decode_error(bytes@) is None && fields_of(h, bytes@),
                Err(e) => decode_error(bytes@) == Some(e),
            },
    {
        if bytes.len() != BOOT_HEADER_LEN {
            return Err(BootHeaderError::WrongLength);
        }
        let mut k: usize = 0;
        while k < 8
            invariant
                bytes@.len() == 96,
                k <= 8,
                forall|j: int| 0 <= j < k ==> bytes@[j] == boot_magic()[j],
            decreases 8 - k,
        {
            if bytes[k] != BOOT_MAGIC[k] {
                assert(bytes@.subrange(0, 8)[k as int] != boot_magic()[k as int]);
                return Err(BootHeaderError::WrongMagic);
            }
            k += 1;
        }
        assert(bytes@.subrange(0, 8) =~= boot_magic());
        if read_le16(bytes, 8) != BOOT_ABI_MAJOR {
            return Err(BootHeaderError::UnsupportedMajor);
        }
        if read_le16(bytes, 10) != BOOT_ABI_MINOR {
            return Err(BootHeaderError::UnsupportedMinor);
        }
        if read_le16(bytes, 12) != 96 {
            return Err(BootHeaderError::WrongHeaderLength);
        }
        if read_le16(bytes, 14) != 0 {
            return Err(BootHeaderError::NonZeroFlags);
        }
        let mut k: usize = 88;
        while k < 96
            invariant
                bytes@.len() == 96,
                88 <= k <= 96,
                forall|j: int| 88 <= j < k ==> bytes@[j] == 0,
                bytes@.subrange(0, 8) == boot_magic(),
                le16(bytes@, 8) == BOOT_ABI_MAJOR,
                le16(bytes@, 10) == BOOT_ABI_MINOR,
                le16(bytes@, 12) == BOOT_HEADER_LEN,
                le16(bytes@, 14) == 0,
            decreases 96 - k,
        {
            if bytes[k] != 0 {
                assert(88 <= k < 96 && bytes@[k as int] != 0);
                return Err(BootHeaderError::NonZeroReserved);
            }
            k += 1;
        }
        let mut digest = [0u8; 32];
        let mut k: usize = 0;
        while k < 32
            invariant
                bytes@.len() == 96,
                k <= 32,
                digest@.len() == 32,
                forall|j: int| 0 <= j < k ==> digest@[j] == bytes@[56 + j],
            decreases 32 - k,
        {
            digest[k] = bytes[56 + k];
            k += 1;
        }
        assert(digest@ =~= bytes@.subrange(56, 88));
        let header = Self {
            total_len: read_le64(bytes, 16),
            manifest: ByteRange { offset: read_le64(bytes, 24), len: read_le64(bytes, 32) },
            elf: ByteRange { offset: read_le64(bytes, 40), len: read_le64(bytes, 48) },
            digest,
        };
        match header.validate_layout() {
            Ok(()) => Ok(header),
            Err(e) => Err(e),
        }
    }

    /// Writes the magic, the ABI versions, the header length, zero flags, the
    /// five fields, the digest, and eight zero reserved bytes.
    pub fn encode(self) -> (r: [u8; 96])
        ensures
            r@ == header_encoding(self),
    {
        let mut bytes = [0u8; 96];
        copy_into(&mut bytes, 0, BOOT_MAGIC.as_slice());
        let f = encode_u16_le(BOOT_ABI_MAJOR);
        copy_into(&mut bytes, 8, f.as_slice());
        let f = encode_u16_le(BOOT_ABI_MINOR);
        copy_into(&mut bytes, 10, f.as_slice());
        let f = encode_u16_le(96);
        copy_into(&mut bytes, 12, f.as_slice());
        let f = encode_u64_le(self.total_len);
        copy_into(&mut bytes, 16, f.as_slice());
        let f = encode_u64_le(self.manifest.offset);
        copy_into(&mut bytes, 24, f.as_slice());
        let f = encode_u64_le(self.manifest.len);
        copy_into(&mut bytes, 32, f.as_slice());
        let f = encode_u64_le(self.elf.offset);
        copy_into(&mut bytes, 40, f.as_slice());
        let f = encode_u64_le(self.elf.len);
        copy_into(&mut bytes, 48, f.as_slice());
        copy_into(&mut bytes, 56, self.digest.as_slice());
        proof {
            crate::bytes::reveal_le_bytes_zero16();
            assert(BOOT_MAGIC@ =~= boot_magic());
            assert(bytes@ =~= header_encoding(self));
        }
        bytes
    }

    /// Encodes the header with its digest field replaced by zeros.
    pub fn encode_with_zero_digest(self) -> (r: [u8; 96])
        ensures
            r@ == header_encoding(self).subrange(0, 56) + Seq::new(32, |i: int| 0u8)
                + header_encoding(self).subrange(88, 96),
    {
        let zeroed = Self {
            total_len: self.total_len,
            manifest: self.manifest,
            elf: self.elf,
            digest: [0u8; 32],
        };
        let r = zeroed.encode();
        proof {
            assert(zeroed.digest@ =~= Seq::new(32, |i: int| 0u8));
            assert(r@ =~= header_encoding(self).subrange(0, 56) + Seq::new(32, |i: int| 0u8)
                + header_encoding(self).subrange(88, 96));
        }
        r
    }

    /// Checks the rules that place the manifest right after the header, the
    /// ELF image at the next multiple of eight, and the end of the ELF image
    /// at `total_len`, within the bundle limit.
    pub fn validate_layout(self) -> (r: Result<(), BootHeaderError>)
        ensures
            match r {
                Ok(()) => header_layout_error(self) is None,
                Err(e) => header_layout_error(self) == Some(e),
            },
    {
        if self.total_len > BUNDLE_MAX_LEN {
            return Err(BootHeaderError::TooLarge);
        }
        if self.manifest.offset != 96 {
            return Err(BootHeaderError::ManifestNotAtHeaderEnd);
        }
        let manifest_end = match checked_add(self.manifest.offset, self.manifest.len) {
            Some(end) => end,
            None => return Err(BootHeaderError::RangeOverflow),
        };
        if self.elf.offset % 8 != 0 {
            return Err(BootHeaderError::ElfNotAligned);
        }
        let elf_end = match checked_add(self.elf.offset, self.elf.len) {
            Some(end) => end,
            None => return Err(BootHeaderError::RangeOverflow),
        };
        if manifest_end > self.elf.offset {
            return Err(BootHeaderError::RangesOverlap);
        }
        let padding_len = (8 - manifest_end % 8) % 8;
        let expected_elf_offset = match checked_add(manifest_end, padding_len) {
            Some(end) => end,
            None => return Err(BootHeaderError::RangeOverflow),
        };
        if self.elf.offset != expected_elf_offset {
            return Err(BootHeaderError::ElfOffsetMismatch);
        }
        if elf_end != self.total_len {
            return Err(BootHeaderError::TotalLengthMismatch);
        }
        Ok(())
    }
}

/// Decoding the bytes that `encode` writes reports exactly the layout rule
/// that the header breaks, and gives back every field when it breaks none.
pub proof fn lemma_header_round_trip(h: BootHeader)
    ensures
        decode_error(header_encoding(h)) == header_layout_error(h),
        header_layout_error(h) is None ==> fields_of(h, header_encoding(h)),
{
    let s = header_encoding(h);
    crate::bytes::reveal_le_bytes_zero16();
    crate::bytes::lemma_le64_of_bytes(h.total_len);
    crate::bytes::lemma_le64_of_bytes(h.manifest.offset);
    crate::bytes::lemma_le64_of_bytes(h.manifest.len);
    crate::bytes::lemma_le64_of_bytes(h.elf.offset);
    crate::bytes::lemma_le64_of_bytes(h.elf.len);
    assert(s.len() == 96);
    assert(s.subrange(0, 8) =~= boot_magic());
    assert(le16(s, 8) == 1);
    assert(le16(s, 10) == 0);
    assert(le16(s, 12) == 96);
    assert(le16(s, 14) == 0);
    assert(forall|i: int| 88 <= i < 96 ==> s[i] == 0);
    crate::bytes::lemma_le64_window(s, 16, le_bytes(h.total_len as int, 8));
    crate::bytes::lemma_le64_window(s, 24, le_bytes(h.manifest.offset as int, 8));
    crate::bytes::lemma_le64_window(s, 32, le_bytes(h.manifest.len as int, 8));
    crate::bytes::lemma_le64_window(s, 40, le_bytes(h.elf.offset as int, 8));
    crate::bytes::lemma_le64_window(s, 48, le_bytes(h.elf.len as int, 8));
    assert(s.subrange(56, 88) =~= h.digest@);
}

} // verus!
