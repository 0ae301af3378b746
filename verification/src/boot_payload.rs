//! Checking the bundle placed in the boot payload window, in two stages: the
//! fixed-size header first, and only then the ranges it declares.

use vstd::prelude::*;
use core::ops::Range;
use crate::abi::boot::{BOOT_HEADER_LEN, BootHeader, BootHeaderError, decode_error, fields_of};
use crate::abi::manifest::{Manifest, ManifestError, ManifestModel, manifest_of};
use crate::bytes::le64;
use crate::memory::{BOOT_PAYLOAD_END, BOOT_PAYLOAD_START};

verus! {

/// Why the payload window does not hold a runnable bundle.
#[derive(Debug, Clone, Copy, PartialEq, Eq)]
pub enum BootPayloadError {
    /// `total_len` is larger than the payload window.
    HeaderTooLarge,
    /// The header breaks the bundle format.
    Header(BootHeaderError),
    /// The manifest breaks the manifest format.
    Manifest(ManifestError),
    /// The padding between the manifest and the ELF is not all zero.
    NonZeroPadding,
    /// The bytes end before the declared `total_len`.
    WindowTooShort,
}

/// How a header error is reported: going past the window has its own variant.
pub open spec fn header_error(e: BootHeaderError) -> BootPayloadError {
    if e == BootHeaderError::TooLarge {
        BootPayloadError::HeaderTooLarge
    } else {
        BootPayloadError::Header(e)
    }
}

impl BootPayloadError {
    fn from_header(error: BootHeaderError) -> (r: Self)
        ensures
            r == header_error(error),
    {
        if error == BootHeaderError::TooLarge {
            BootPayloadError::HeaderTooLarge
        } else {
            BootPayloadError::Header(error)
        }
    }
}

/// The size of the payload window.
pub open spec fn window_len() -> int {
    BOOT_PAYLOAD_END - BOOT_PAYLOAD_START
}

/// The header bytes of a window.
pub open spec fn header_bytes(bytes: Seq<u8>) -> Seq<u8> {
    bytes.subrange(0, BOOT_HEADER_LEN as int)
}

pub open spec fn total_of(bytes: Seq<u8>) -> int {
    le64(header_bytes(bytes), 16)
}

pub open spec fn manifest_start_of(bytes: Seq<u8>) -> int {
    le64(header_bytes(bytes), 24)
}

pub open spec fn manifest_end_of(bytes: Seq<u8>) -> int {
    le64(header_bytes(bytes), 24) + le64(header_bytes(bytes), 32)
}

pub open spec fn elf_start_of(bytes: Seq<u8>) -> int {
    le64(header_bytes(bytes), 40)
}

/// The first check that the window `bytes` fails: the header, its length
/// against the window and the bytes, the declared ranges, zero padding, and
/// the manifest.
pub open spec fn payload_error(bytes: Seq<u8>) -> Option<BootPayloadError> {
    let total = total_of(bytes);
    let manifest_end = manifest_end_of(bytes);
    let elf_start = elf_start_of(bytes);
    if bytes.len() < BOOT_HEADER_LEN {
        Some(BootPayloadError::WindowTooShort)
    } else if decode_error(header_bytes(bytes)) is Some {
        Some(header_error(decode_error(header_bytes(bytes))->0))
    } else if total > window_len() {
        Some(BootPayloadError::HeaderTooLarge)
    } else if total > bytes.len() {
        Some(BootPayloadError::WindowTooShort)
    } else if manifest_end > total || elf_start < manifest_end || elf_start > total {
        Some(BootPayloadError::WindowTooShort)
    } else if exists|i: int| manifest_end <= i < elf_start && #[trigger] bytes[i] != 0 {
        Some(BootPayloadError::NonZeroPadding)
    } else if manifest_of(bytes.subrange(manifest_start_of(bytes), manifest_end)) is Err {
        Some(
            BootPayloadError::Manifest(
                manifest_of(bytes.subrange(manifest_start_of(bytes), manifest_end))->Err_0,
            ),
        )
    } else {
        None
    }
}

/// A checked bundle: its declared length, its manifest and its ELF bytes.
pub struct PayloadView {
    pub total_len: u64,
    pub elf_offset: u64,
    pub elf_len: u64,
    pub manifest: ManifestModel,
    pub elf: Seq<u8>,
}

/// The bundle that passes every check: what its header declares, what its
/// manifest says, and the bytes from the ELF offset to the declared end.
pub open spec fn payload_of(bytes: Seq<u8>) -> PayloadView {
    PayloadView {
        total_len: total_of(bytes) as u64,
        elf_offset: elf_start_of(bytes) as u64,
        elf_len: le64(header_bytes(bytes), 48) as u64,
        manifest: manifest_of(bytes.subrange(manifest_start_of(bytes), manifest_end_of(bytes)))->Ok_0,
        elf: bytes.subrange(elf_start_of(bytes), total_of(bytes)),
    }
}

/// A bundle from the payload window whose header, ranges and manifest were
/// checked; it lends out only checked ranges.
#[derive(Debug, PartialEq, Eq)]
pub struct BootPayload<'a> {
    header: BootHeader,
    manifest: Manifest<'a>,
    elf: &'a [u8],
}

impl<'a> View for BootPayload<'a> {
    type V = PayloadView;

    closed spec fn view(&self) -> PayloadView {
        PayloadView {
            total_len: self.header.total_len,
            elf_offset: self.header.elf.offset,
            elf_len: self.header.elf.len,
            manifest: self.manifest@,
            elf: self.elf@,
        }
    }
}

proof fn lemma_header_fields(bytes: Seq<u8>, h: BootHeader)
    requires
        bytes.len() >= BOOT_HEADER_LEN,
        fields_of(h, header_bytes(bytes)),
    ensures
        h.total_len == total_of(bytes),
        h.manifest.offset == manifest_start_of(bytes),
        h.manifest.offset + h.manifest.len == manifest_end_of(bytes),
        h.elf.offset == elf_start_of(bytes),
        h.elf.len == le64(header_bytes(bytes), 48),
{
}

/// `bytes[start..end]` holds zeros only.
fn all_zero(bytes: &[u8], start: usize, end: usize) -> (r: bool)
    requires
        start <= end <= bytes@.len(),
    ensures
        r == !(exists|i: int| start <= i < end && #[trigger] bytes@[i] != 0),
{
    let mut i = start;
    while i < end
        invariant
            start <= i <= end <= bytes@.len(),
            forall|k: int| start <= k < i ==> #[trigger] bytes@[k] == 0,
        decreases end - i,
    {
        if bytes[i] != 0 {
            assert(bytes@[i as int] != 0);
            return false;
        }
        i = i + 1;
    }
    true
}

impl<'a> BootPayload<'a> {
    #[verifier::type_invariant]
    spec fn elf_end_fits(self) -> bool {
        self.header.elf.offset + self.header.elf.len <= u64::MAX
    }

    /// Checks `bytes` as the contents of the payload window: the 96-byte
    /// header first, and only once it holds, the manifest range, the padding
    /// and the ELF range within the declared length.
    pub fn parse(bytes: &'a [u8]) -> (r: Result<Self, BootPayloadError>)
        ensures
            match r {
                Ok(p) => payload_error(bytes@) is None && p@ == payload_of(bytes@),
                Err(e) => payload_error(bytes@) == Some(e),
            },
    {
        if bytes.len() < BOOT_HEADER_LEN {
            return Err(BootPayloadError::WindowTooShort);
        }
        let header_slice = vstd::slice::slice_subrange(bytes, 0, BOOT_HEADER_LEN);
        proof {
            assert(header_slice@ =~= header_bytes(bytes@));
        }
        let header = match BootHeader::decode(header_slice) {
            Ok(header) => header,
            Err(error) => {
                return Err(BootPayloadError::from_header(error));
            },
        };
        proof {
            lemma_header_fields(bytes@, header);
        }
        if header.total_len > (BOOT_PAYLOAD_END - BOOT_PAYLOAD_START) as u64 {
            return Err(BootPayloadError::HeaderTooLarge);
        }
        let total_len = header.total_len as usize;
        if total_len > bytes.len() {
            return Err(BootPayloadError::WindowTooShort);
        }
        // The layout rules that `decode` checked place both ranges inside the
        // declared length, manifest first.
        let manifest_start = header.manifest.offset as usize;
        let manifest_end = (header.manifest.offset + header.manifest.len) as usize;
        let elf_start = header.elf.offset as usize;
        if manifest_end > total_len || elf_start < manifest_end || elf_start > total_len {
            return Err(BootPayloadError::WindowTooShort);
        }
        if !all_zero(bytes, manifest_end, elf_start) {
            return Err(BootPayloadError::NonZeroPadding);
        }
        let manifest_bytes = vstd::slice::slice_subrange(bytes, manifest_start, manifest_end);
        let manifest = match Manifest::parse(manifest_bytes) {
            Ok(manifest) => manifest,
            Err(error) => {
                return Err(BootPayloadError::Manifest(error));
            },
        };
        let elf = vstd::slice::slice_subrange(bytes, elf_start, total_len);
        Ok(BootPayload { header, manifest, elf })
    }

    /// How many bytes of the payload window to read: the length that the
    /// header in its first `BOOT_HEADER_LEN` bytes declares, once the header
    /// holds and the length fits the window.
    pub fn window_len(header: &[u8]) -> (r: Result<usize, BootPayloadError>)
        ensures
            header@.len() < BOOT_HEADER_LEN ==> r == Err::<usize, BootPayloadError>(
                BootPayloadError::WindowTooShort,
            ),
            header@.len() >= BOOT_HEADER_LEN && decode_error(header_bytes(header@)) is Some ==> r
                == Err::<usize, BootPayloadError>(
                header_error(decode_error(header_bytes(header@))->0),
            ),
            header@.len() >= BOOT_HEADER_LEN && decode_error(header_bytes(header@)) is None
                && total_of(header@) > window_len() ==> r == Err::<usize, BootPayloadError>(
                BootPayloadError::HeaderTooLarge,
            ),
            header@.len() >= BOOT_HEADER_LEN && decode_error(header_bytes(header@)) is None
                && total_of(header@) <= window_len() ==> r == Ok::<usize, BootPayloadError>(
                total_of(header@) as usize,
            ),
    {
        if header.len() < BOOT_HEADER_LEN {
            return Err(BootPayloadError::WindowTooShort);
        }
        let header_slice = vstd::slice::slice_subrange(header, 0, BOOT_HEADER_LEN);
        proof {
            assert(header_slice@ =~= header_bytes(header@));
        }
        let decoded = match BootHeader::decode(header_slice) {
            Ok(decoded) => decoded,
            Err(error) => {
                return Err(BootPayloadError::from_header(error));
            },
        };
        proof {
            lemma_header_fields(header@, decoded);
        }
        if decoded.total_len > (BOOT_PAYLOAD_END - BOOT_PAYLOAD_START) as u64 {
            return Err(BootPayloadError::HeaderTooLarge);
        }
        Ok(decoded.total_len as usize)
    }

    /// The checked manifest.
    pub fn manifest(&self) -> (r: &Manifest<'a>)
        ensures
            r@ == self@.manifest,
    {
        &self.manifest
    }

    /// The checked ELF bytes.
    pub fn elf(&self) -> (r: &'a [u8])
        ensures
            r@ == self@.elf,
    {
        self.elf
    }

    /// The ELF range that the header declares.
    pub fn elf_range(&self) -> (r: Range<u64>)
        ensures
            r.start == self@.elf_offset,
            r.end == self@.elf_offset + self@.elf_len,
    {
        proof {
            use_type_invariant(self);
        }
        self.header.elf.offset..self.header.elf.offset + self.header.elf.len
    }

    /// The declared length of the whole bundle.
    pub fn total_len(&self) -> (r: u64)
        ensures
            r == self@.total_len,
    {
        self.header.total_len
    }
}

/// Reading only the declared length is enough: when the header of `bytes`
/// holds and declares a length that fits the window and the bytes, checking
/// just that prefix gives the same verdict and the same bundle as checking
/// all of `bytes`.
pub proof fn lemma_declared_prefix_suffices(bytes: Seq<u8>)
    requires
        bytes.len() >= BOOT_HEADER_LEN,
        decode_error(header_bytes(bytes)) is None,
        total_of(bytes) <= window_len(),
        total_of(bytes) <= bytes.len(),
    ensures
        payload_error(bytes.take(total_of(bytes))) == payload_error(bytes),
        payload_error(bytes) is None ==> payload_of(bytes.take(total_of(bytes))) == payload_of(
            bytes,
        ),
{
    let total = total_of(bytes);
    let prefix = bytes.take(total);
    assert(total >= BOOT_HEADER_LEN);
    assert(header_bytes(prefix) =~= header_bytes(bytes));
    let manifest_start = manifest_start_of(bytes);
    let manifest_end = manifest_end_of(bytes);
    let elf_start = elf_start_of(bytes);
    if manifest_end <= total && manifest_end <= elf_start && elf_start <= total {
        assert forall|i: int| manifest_end <= i < elf_start implies prefix[i] == bytes[i] by {}
        assert(prefix.subrange(manifest_start, manifest_end) =~= bytes.subrange(
            manifest_start,
            manifest_end,
        ));
        assert(prefix.subrange(elf_start, total) =~= bytes.subrange(elf_start, total));
    }
}

} // verus!
