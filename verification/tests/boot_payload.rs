use minios::elf::fixture::valid_riscv64_elf;
use minios::abi::boot::{BootHeaderError, BOOT_HEADER_LEN, BUNDLE_MAX_LEN};
use minios::abi::manifest::ManifestError;
use minios::boot_payload::{BootPayload, BootPayloadError};
use minios::memory::{BOOT_PAYLOAD_END, BOOT_PAYLOAD_START};

const MANIFEST: &[u8] = b"version=1\nname=hello\n";

fn canonical_bundle() -> Vec<u8> {
    let elf = valid_riscv64_elf();
    let manifest_end = BOOT_HEADER_LEN + MANIFEST.len();
    let padding_len = (8 - manifest_end % 8) % 8;
    let elf_offset = manifest_end + padding_len;
    let total_len = elf_offset + elf.len();

    let mut bytes = vec![0u8; total_len];
    bytes[0..8].copy_from_slice(b"MINICTR\0");
    bytes[8..10].copy_from_slice(&1u16.to_le_bytes());
    bytes[12..14].copy_from_slice(&(BOOT_HEADER_LEN as u16).to_le_bytes());
    bytes[16..24].copy_from_slice(&(total_len as u64).to_le_bytes());
    bytes[24..32].copy_from_slice(&(BOOT_HEADER_LEN as u64).to_le_bytes());
    bytes[32..40].copy_from_slice(&(MANIFEST.len() as u64).to_le_bytes());
    bytes[40..48].copy_from_slice(&(elf_offset as u64).to_le_bytes());
    bytes[48..56].copy_from_slice(&(elf.len() as u64).to_le_bytes());
    bytes[BOOT_HEADER_LEN..manifest_end].copy_from_slice(MANIFEST);
    bytes[elf_offset..].copy_from_slice(&elf);
    bytes
}

#[test]
fn payload_rejects_total_length_past_reserved_window() {
    let mut bytes = canonical_bundle();
    let declared = (BOOT_PAYLOAD_END - BOOT_PAYLOAD_START) as u64;
    bytes[16..24].copy_from_slice(&(declared + 1).to_le_bytes());
    assert_eq!(
        BootPayload::parse(&bytes),
        Err(BootPayloadError::HeaderTooLarge)
    );

    let mut bytes = canonical_bundle();
    bytes[16..24].copy_from_slice(&(BUNDLE_MAX_LEN + 1).to_le_bytes());
    assert_eq!(
        BootPayload::parse(&bytes),
        Err(BootPayloadError::HeaderTooLarge)
    );
}

#[test]
fn payload_returns_only_validated_manifest_and_elf_ranges() {
    let bytes = canonical_bundle();
    let payload = BootPayload::parse(&bytes).unwrap();

    assert_eq!(payload.manifest().name(), "hello");
    assert!(payload.elf().starts_with(b"\x7fELF"));
    assert_eq!(payload.elf().len(), valid_riscv64_elf().len());
    let elf_offset = u64::from_le_bytes(bytes[40..48].try_into().unwrap());
    assert_eq!(payload.elf_range().start, elf_offset);
    assert_eq!(payload.total_len(), bytes.len() as u64);
}

#[test]
fn payload_rejects_a_window_shorter_than_the_declared_length() {
    let mut bytes = canonical_bundle();
    bytes.pop();
    assert_eq!(
        BootPayload::parse(&bytes),
        Err(BootPayloadError::WindowTooShort)
    );
}

#[test]
fn payload_rejects_a_missing_or_corrupt_header() {
    let mut bytes = canonical_bundle();
    bytes[0] = b'X';
    assert_eq!(
        BootPayload::parse(&bytes),
        Err(BootPayloadError::Header(BootHeaderError::WrongMagic))
    );

    let zeros = vec![0u8; BOOT_HEADER_LEN];
    assert_eq!(
        BootPayload::parse(&zeros),
        Err(BootPayloadError::Header(BootHeaderError::WrongMagic))
    );
}

#[test]
fn payload_rejects_nonzero_padding() {
    let mut bytes = canonical_bundle();
    let index = BOOT_HEADER_LEN + MANIFEST.len();
    assert!(index < bytes.len());
    bytes[index] = 0xff;
    assert_eq!(
        BootPayload::parse(&bytes),
        Err(BootPayloadError::NonZeroPadding)
    );
}

#[test]
fn reserved_window_parse_reads_only_the_declared_prefix() {
    let mut bytes = canonical_bundle();
    bytes.extend_from_slice(&[0xcc; 64]);
    let payload = BootPayload::parse(&bytes).unwrap();
    assert_eq!(payload.elf().len(), valid_riscv64_elf().len());
}

// A manifest the format refuses makes the whole bundle invalid. The line
// `version=2` names a version the format supports, so for
// "version=2\nname=hello\n" the refusal is the v1-style `name=` line, which
// version 2 does not know (`UnknownKey`, as the manifest's own rules for
// version 2 require); a version the format does not support is reported as
// `MissingVersion`.
#[test]
fn payload_rejects_an_invalid_manifest() {
    let mut bytes = canonical_bundle();
    let manifest_start = BOOT_HEADER_LEN;
    bytes[manifest_start..manifest_start + MANIFEST.len()]
        .copy_from_slice(b"version=2\nname=hello\n");
    assert_eq!(
        BootPayload::parse(&bytes),
        Err(BootPayloadError::Manifest(ManifestError::UnknownKey))
    );

    let mut bytes = canonical_bundle();
    bytes[manifest_start..manifest_start + MANIFEST.len()]
        .copy_from_slice(b"version=3\nname=hello\n");
    assert_eq!(
        BootPayload::parse(&bytes),
        Err(BootPayloadError::Manifest(ManifestError::MissingVersion))
    );
}

#[test]
fn payload_rejects_a_window_shorter_than_a_header() {
    let bytes = canonical_bundle();
    assert_eq!(
        BootPayload::parse(&bytes[..BOOT_HEADER_LEN - 1]),
        Err(BootPayloadError::WindowTooShort)
    );
}

#[test]
fn payload_lends_the_parsed_manifest() {
    let bytes = canonical_bundle();
    let payload = BootPayload::parse(&bytes).unwrap();
    assert_eq!(payload.manifest().version(), 1);
    assert_eq!(payload.elf_range().end, bytes.len() as u64);
}

#[test]
fn window_len_is_the_declared_length() {
    let bytes = canonical_bundle();
    assert_eq!(BootPayload::window_len(&bytes[..BOOT_HEADER_LEN]), Ok(bytes.len()));
    assert_eq!(BootPayload::window_len(&bytes), Ok(bytes.len()));
}

#[test]
fn window_len_checks_the_header_first() {
    let bytes = canonical_bundle();
    assert_eq!(
        BootPayload::window_len(&bytes[..BOOT_HEADER_LEN - 1]),
        Err(BootPayloadError::WindowTooShort)
    );
    let mut corrupt = bytes.clone();
    corrupt[0] ^= 0xff;
    assert_eq!(
        BootPayload::window_len(&corrupt),
        Err(BootPayloadError::Header(BootHeaderError::WrongMagic))
    );
}

#[test]
fn reading_the_declared_prefix_gives_the_same_bundle() {
    let mut window = canonical_bundle();
    window.extend_from_slice(&[0xcc; 64]);
    let len = BootPayload::window_len(&window[..BOOT_HEADER_LEN]).unwrap();
    let prefix = BootPayload::parse(&window[..len]).unwrap();
    let whole = BootPayload::parse(&window).unwrap();
    assert_eq!(prefix.elf(), whole.elf());
    assert_eq!(prefix.total_len(), whole.total_len());
}
