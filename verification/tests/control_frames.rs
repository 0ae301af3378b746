use minios::abi::control::{
    ControlError, FRAME_HEADER_LEN, FRAME_MAX_PAYLOAD_LEN, FrameHeader, FrameKind,
};
use minios::abi::proc_exit::{ProcExitPayload, ProcExitPayloadError};
use minios::abi::ready::{ReadyPayload, ReadyPayloadError};

fn valid_header_bytes() -> [u8; FRAME_HEADER_LEN] {
    let mut bytes = [0; FRAME_HEADER_LEN];
    bytes[0..4].copy_from_slice(b"MCF1");
    bytes[4] = FrameKind::Stdout.to_byte();
    bytes[8..12].copy_from_slice(&4096_u32.to_le_bytes());
    bytes
}

#[test]
fn frame_header_round_trips() {
    let header = FrameHeader {
        kind: FrameKind::Stdout,
        payload_len: 4096,
    };

    let encoded = header.encode();
    let decoded = FrameHeader::decode(&encoded).unwrap();

    assert_eq!(decoded, header);
    assert_eq!(&encoded[0..4], b"MCF1");
}

#[test]
fn rejects_headers_that_are_not_exactly_12_bytes() {
    let short = [0; FRAME_HEADER_LEN - 1];
    let long = [0; FRAME_HEADER_LEN + 1];

    for bytes in [&short[..], &long[..]] {
        assert_eq!(FrameHeader::decode(bytes), Err(ControlError::WrongLength));
    }
}

#[test]
fn rejects_wrong_magic() {
    let mut bytes = valid_header_bytes();
    bytes[0] = b'X';

    assert_eq!(FrameHeader::decode(&bytes), Err(ControlError::WrongMagic));
}

#[test]
fn rejects_unknown_kind() {
    let mut bytes = valid_header_bytes();
    bytes[4] = 7;

    assert_eq!(FrameHeader::decode(&bytes), Err(ControlError::UnknownKind));
}

#[test]
fn rejects_non_zero_flags() {
    let mut bytes = valid_header_bytes();
    bytes[5] = 1;

    assert_eq!(FrameHeader::decode(&bytes), Err(ControlError::NonZeroFlags));
}

#[test]
fn rejects_non_zero_reserved() {
    let mut bytes = valid_header_bytes();
    bytes[6] = 1;

    assert_eq!(
        FrameHeader::decode(&bytes),
        Err(ControlError::NonZeroReserved)
    );
}

#[test]
fn rejects_payload_larger_than_64_kibibytes() {
    let mut bytes = valid_header_bytes();
    bytes[8..12].copy_from_slice(&(FRAME_MAX_PAYLOAD_LEN + 1).to_le_bytes());

    assert_eq!(
        FrameHeader::decode(&bytes),
        Err(ControlError::PayloadTooLarge)
    );
}

#[test]
fn rejects_ready_and_exit_with_wrong_fixed_payload_length() {
    let mut ready = valid_header_bytes();
    ready[4] = FrameKind::Ready.to_byte();
    ready[8..12].copy_from_slice(&3_u32.to_le_bytes());

    let mut exit = valid_header_bytes();
    exit[4] = FrameKind::Exit.to_byte();
    exit[8..12].copy_from_slice(&5_u32.to_le_bytes());

    for bytes in [ready, exit] {
        assert_eq!(
            FrameHeader::decode(&bytes),
            Err(ControlError::WrongFixedPayloadLength)
        );
    }
}

#[test]
fn frame_kinds_have_stable_wire_values() {
    let kinds = [
        (FrameKind::Ready, 1),
        (FrameKind::Stdout, 2),
        (FrameKind::Stderr, 3),
        (FrameKind::Exit, 4),
        (FrameKind::GuestError, 5),
        (FrameKind::Diagnostic, 6),
    ];
    for (kind, byte) in kinds {
        assert_eq!(kind.to_byte(), byte);
        assert_eq!(FrameKind::from_byte(byte), Some(kind));
    }
    assert_eq!(FrameKind::from_byte(0), None);
}

#[test]
fn encoded_exit_header_carries_the_little_endian_length() {
    let encoded = FrameHeader {
        kind: FrameKind::Exit,
        payload_len: 4,
    }
    .encode();
    assert_eq!(encoded, [b'M', b'C', b'F', b'1', 4, 0, 0, 0, 4, 0, 0, 0]);
}

#[test]
fn ready_payload_round_trips_and_rejects_other_lengths() {
    let payload = ReadyPayload {
        abi_major: 1,
        abi_minor: 0x0203,
    };
    let bytes = payload.encode();
    assert_eq!(bytes, [1, 0, 3, 2]);
    assert_eq!(ReadyPayload::decode(&bytes), Ok(payload));
    assert_eq!(
        ReadyPayload::decode(&bytes[..3]),
        Err(ReadyPayloadError::WrongLength)
    );
}

#[test]
fn proc_exit_payload_round_trips_and_rejects_other_lengths() {
    let payload = ProcExitPayload {
        pid: 2,
        code: 0x0102_0304,
    };
    let bytes = payload.encode();
    assert_eq!(bytes, [2, 0, 0, 0, 4, 3, 2, 1]);
    assert_eq!(ProcExitPayload::decode(&bytes), Ok(payload));
    assert_eq!(
        ProcExitPayload::decode(&[0; 9]),
        Err(ProcExitPayloadError::WrongLength)
    );
}
