use minios::abi::boot::{BUNDLE_MAX_LEN, BootHeader, BootHeaderError, ByteRange};

const BOOT_HEADER_LEN: usize = 96;

fn canonical_bytes() -> [u8; BOOT_HEADER_LEN] {
    let mut bytes = [0_u8; BOOT_HEADER_LEN];
    bytes[0..8].copy_from_slice(b"MINICTR\0");
    bytes[8..10].copy_from_slice(&1_u16.to_le_bytes());
    bytes[12..14].copy_from_slice(&96_u16.to_le_bytes());
    bytes[16..24].copy_from_slice(&120_u64.to_le_bytes());
    bytes[24..32].copy_from_slice(&96_u64.to_le_bytes());
    bytes[32..40].copy_from_slice(&8_u64.to_le_bytes());
    bytes[40..48].copy_from_slice(&104_u64.to_le_bytes());
    bytes[48..56].copy_from_slice(&16_u64.to_le_bytes());
    bytes
}

fn canonical_header() -> BootHeader {
    BootHeader {
        total_len: 120,
        manifest: ByteRange { offset: 96, len: 8 },
        elf: ByteRange {
            offset: 104,
            len: 16,
        },
        digest: [0; 32],
    }
}

#[test]
fn decodes_canonical_v1_header() {
    let mut bytes = [0_u8; BOOT_HEADER_LEN];
    bytes[0..8].copy_from_slice(b"MINICTR\0");
    bytes[8..10].copy_from_slice(&1_u16.to_le_bytes());
    bytes[12..14].copy_from_slice(&96_u16.to_le_bytes());
    bytes[16..24].copy_from_slice(&120_u64.to_le_bytes());
    bytes[24..32].copy_from_slice(&96_u64.to_le_bytes());
    bytes[32..40].copy_from_slice(&8_u64.to_le_bytes());
    bytes[40..48].copy_from_slice(&104_u64.to_le_bytes());
    bytes[48..56].copy_from_slice(&16_u64.to_le_bytes());
    bytes[56..88].fill(0x5a);

    let header = BootHeader::decode(&bytes).unwrap();

    assert_eq!(header.total_len, 120);
    assert_eq!(header.manifest, ByteRange { offset: 96, len: 8 });
    assert_eq!(
        header.elf,
        ByteRange {
            offset: 104,
            len: 16
        }
    );
    assert_eq!(header.digest, [0x5a; 32]);
}

#[test]
fn encodes_canonical_v1_header() {
    let header = BootHeader {
        total_len: 120,
        manifest: ByteRange { offset: 96, len: 8 },
        elf: ByteRange {
            offset: 104,
            len: 16,
        },
        digest: [0xa5; 32],
    };

    let bytes = header.encode();

    assert_eq!(
        &bytes[..56],
        &[
            b'M', b'I', b'N', b'I', b'C', b'T', b'R', 0, 1, 0, 0, 0, 96, 0, 0, 0, 120, 0, 0, 0, 0,
            0, 0, 0, 96, 0, 0, 0, 0, 0, 0, 0, 8, 0, 0, 0, 0, 0, 0, 0, 104, 0, 0, 0, 0, 0, 0, 0, 16,
            0, 0, 0, 0, 0, 0, 0,
        ],
    );
    assert_eq!(&bytes[56..88], &[0xa5; 32]);
    assert_eq!(&bytes[88..96], &[0; 8]);
}

#[test]
fn zero_digest_encoding_only_zeroes_the_digest_field() {
    let header = BootHeader {
        total_len: 120,
        manifest: ByteRange { offset: 96, len: 8 },
        elf: ByteRange {
            offset: 104,
            len: 16,
        },
        digest: [0xa5; 32],
    };

    let encoded = header.encode();
    let zeroed = header.encode_with_zero_digest();

    assert_eq!(&zeroed[..56], &encoded[..56]);
    assert_eq!(&zeroed[56..88], &[0; 32]);
    assert_eq!(&zeroed[88..], &encoded[88..]);
}

#[test]
fn rejects_headers_that_are_not_exactly_96_bytes() {
    let short = [0_u8; BOOT_HEADER_LEN - 1];
    let long = [0_u8; BOOT_HEADER_LEN + 1];

    for (case, bytes) in [("short", &short[..]), ("long", &long[..])] {
        assert_eq!(
            BootHeader::decode(bytes),
            Err(BootHeaderError::WrongLength),
            "{case}"
        );
    }
}

#[test]
fn rejects_malformed_fixed_header_fields() {
    let mut wrong_magic = canonical_bytes();
    wrong_magic[0] = b'X';

    let mut unsupported_major = canonical_bytes();
    unsupported_major[8..10].copy_from_slice(&2_u16.to_le_bytes());

    let mut unsupported_minor = canonical_bytes();
    unsupported_minor[10..12].copy_from_slice(&1_u16.to_le_bytes());

    let mut wrong_header_len = canonical_bytes();
    wrong_header_len[12..14].copy_from_slice(&95_u16.to_le_bytes());

    let mut non_zero_flags = canonical_bytes();
    non_zero_flags[14..16].copy_from_slice(&1_u16.to_le_bytes());

    let mut non_zero_reserved = canonical_bytes();
    non_zero_reserved[95] = 1;

    let cases = [
        ("WrongMagic", wrong_magic, BootHeaderError::WrongMagic),
        (
            "UnsupportedMajor",
            unsupported_major,
            BootHeaderError::UnsupportedMajor,
        ),
        (
            "UnsupportedMinor",
            unsupported_minor,
            BootHeaderError::UnsupportedMinor,
        ),
        (
            "WrongHeaderLength",
            wrong_header_len,
            BootHeaderError::WrongHeaderLength,
        ),
        (
            "NonZeroFlags",
            non_zero_flags,
            BootHeaderError::NonZeroFlags,
        ),
        (
            "NonZeroReserved",
            non_zero_reserved,
            BootHeaderError::NonZeroReserved,
        ),
    ];

    for (case, bytes, expected) in cases {
        assert_eq!(BootHeader::decode(&bytes), Err(expected), "{case}");
    }
}

#[test]
fn decode_rejects_an_invalid_range_layout() {
    let mut bytes = canonical_bytes();
    bytes[16..24].copy_from_slice(&121_u64.to_le_bytes());

    assert_eq!(
        BootHeader::decode(&bytes),
        Err(BootHeaderError::TotalLengthMismatch)
    );
}

#[test]
fn accepts_required_padding_and_the_maximum_bundle_length() {
    let cases = [
        (
            "one padding byte",
            BootHeader {
                manifest: ByteRange { offset: 96, len: 7 },
                ..canonical_header()
            },
        ),
        (
            "maximum bundle length",
            BootHeader {
                total_len: BUNDLE_MAX_LEN,
                elf: ByteRange {
                    offset: 104,
                    len: BUNDLE_MAX_LEN - 104,
                },
                ..canonical_header()
            },
        ),
    ];

    for (case, header) in cases {
        assert_eq!(header.validate_layout(), Ok(()), "{case}");
        assert_eq!(BootHeader::decode(&header.encode()), Ok(header), "{case}");
    }
}

#[test]
fn rejects_invalid_layouts() {
    let cases = [
        (
            "TooLarge",
            BootHeader {
                total_len: BUNDLE_MAX_LEN + 1,
                ..canonical_header()
            },
            BootHeaderError::TooLarge,
        ),
        (
            "ManifestNotAtHeaderEnd",
            BootHeader {
                manifest: ByteRange {
                    offset: 104,
                    len: 8,
                },
                ..canonical_header()
            },
            BootHeaderError::ManifestNotAtHeaderEnd,
        ),
        (
            "ElfNotAligned",
            BootHeader {
                elf: ByteRange {
                    offset: 103,
                    len: 17,
                },
                ..canonical_header()
            },
            BootHeaderError::ElfNotAligned,
        ),
        (
            "RangeOverflow",
            BootHeader {
                total_len: BUNDLE_MAX_LEN,
                elf: ByteRange {
                    offset: u64::MAX - 7,
                    len: 16,
                },
                ..canonical_header()
            },
            BootHeaderError::RangeOverflow,
        ),
        (
            "ManifestRangeOverflow",
            BootHeader {
                total_len: BUNDLE_MAX_LEN,
                manifest: ByteRange {
                    offset: 96,
                    len: u64::MAX,
                },
                ..canonical_header()
            },
            BootHeaderError::RangeOverflow,
        ),
        (
            "RangesOverlap",
            BootHeader {
                manifest: ByteRange {
                    offset: 96,
                    len: 16,
                },
                ..canonical_header()
            },
            BootHeaderError::RangesOverlap,
        ),
        (
            "ElfOffsetMismatch",
            BootHeader {
                elf: ByteRange {
                    offset: 112,
                    len: 8,
                },
                ..canonical_header()
            },
            BootHeaderError::ElfOffsetMismatch,
        ),
        (
            "TotalLengthMismatch",
            BootHeader {
                total_len: 121,
                ..canonical_header()
            },
            BootHeaderError::TotalLengthMismatch,
        ),
    ];

    for (case, header, expected) in cases {
        assert_eq!(header.validate_layout(), Err(expected), "{case}");
        assert_eq!(
            BootHeader::decode(&header.encode()),
            Err(expected),
            "{case} bytes"
        );
    }
}

#[test]
fn rejects_elf_range_overflow() {
    let header = BootHeader {
        total_len: BUNDLE_MAX_LEN,
        manifest: ByteRange { offset: 96, len: 8 },
        elf: ByteRange {
            offset: u64::MAX - 7,
            len: 16,
        },
        digest: [0; 32],
    };

    assert_eq!(
        header.validate_layout(),
        Err(BootHeaderError::RangeOverflow)
    );
}

#[test]
fn header_round_trip_keeps_every_field() {
    let header = BootHeader {
        total_len: 0x1000,
        manifest: ByteRange { offset: 96, len: 9 },
        elf: ByteRange {
            offset: 112,
            len: 0x1000 - 112,
        },
        digest: [7; 32],
    };
    assert_eq!(BootHeader::decode(&header.encode()), Ok(header));
}
