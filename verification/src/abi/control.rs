//! The header of the UART control frames exchanged with the host.

use vstd::prelude::*;
use crate::bytes::{encode_u32_le, le32, le_bytes, read_le32};


verus! {

pub const FRAME_HEADER_LEN: usize = 12;

pub const FRAME_MAX_PAYLOAD_LEN: u32 = 65536;

/// The frame magic `MCF1`.
pub const FRAME_MAGIC: [u8; 4] = [0x4d, 0x43, 0x46, 0x31];

pub open spec fn frame_magic() -> Seq<u8> {
    seq![0x4du8, 0x43u8, 0x46u8, 0x31u8]
}

/// What a control frame carries. Its wire value is [`FrameKind::to_byte`].
#[derive(Debug, Clone, Copy, PartialEq, Eq, Structural)]
pub enum FrameKind {
    Ready,
    Stdout,
    Stderr,
    Exit,
    GuestError,
    Diagnostic,
}

#[derive(Debug, Clone, Copy, PartialEq, Eq, Structural)]
pub struct FrameHeader {
    pub kind: FrameKind,
    pub payload_len: u32,
}

#[derive(Debug, Clone, Copy, PartialEq, Eq, Structural)]
pub enum ControlError {
    WrongLength,
    WrongMagic,
    UnknownKind,
    NonZeroFlags,
    NonZeroReserved,
    PayloadTooLarge,
    WrongFixedPayloadLength,
}

pub open spec fn kind_byte(kind: FrameKind) -> u8 {
    match kind {
        FrameKind::Ready => 1,
        FrameKind::Stdout => 2,
        FrameKind::Stderr => 3,
        FrameKind::Exit => 4,
        FrameKind::GuestError => 5,
        FrameKind::Diagnostic => 6,
    }
}

pub open spec fn kind_of_byte(byte: u8) -> Option<FrameKind> {
    if byte == 1 {
        Some(FrameKind::Ready)
    } else if byte == 2 {
        Some(FrameKind::Stdout)
    } else if byte == 3 {
        Some(FrameKind::Stderr)
    } else if byte == 4 {
        Some(FrameKind::Exit)
    } else if byte == 5 {
        Some(FrameKind::GuestError)
    } else if byte == 6 {
        Some(FrameKind::Diagnostic)
    } else {
        None
    }
}

impl FrameKind {
    /// The wire value of this kind: `Ready` is 1, then 2, 3, ... in declaration order.
    pub fn to_byte(self) -> (r: u8)
        ensures
            r == kind_byte(self),
    {
        match self {
            FrameKind::Ready => 1,
            FrameKind::Stdout => 2,
            FrameKind::Stderr => 3,
            FrameKind::Exit => 4,
            FrameKind::GuestError => 5,
            FrameKind::Diagnostic => 6,
        }
    }

    /// The kind whose wire value is `byte`, if any.
    pub fn from_byte(byte: u8) -> (r: Option<Self>)
        ensures
            r == kind_of_byte(byte),
    {
        match byte {
            1 => Some(Self::Ready),
            2 => Some(Self::Stdout),
            3 => Some(Self::Stderr),
            4 => Some(Self::Exit),
            5 => Some(Self::GuestError),
            6 => Some(Self::Diagnostic),
            _ => None,
        }
    }
}

/// What decoding `s` yields, check by check in wire order.
pub open spec fn frame_header_decoding(s: Seq<u8>) -> Result<FrameHeader, ControlError> {
    if s.len() != FRAME_HEADER_LEN {
        Err(ControlError::WrongLength)
    } else if s.subrange(0, 4) != frame_magic() {
        Err(ControlError::WrongMagic)
    } else if kind_of_byte(s[4]) is None {
        Err(ControlError::UnknownKind)
    } else if s[5] != 0 {
        Err(ControlError::NonZeroFlags)
    } else if s[6] != 0 || s[7] != 0 {
        Err(ControlError::NonZeroReserved)
    } else if le32(s, 8) > FRAME_MAX_PAYLOAD_LEN {
        Err(ControlError::PayloadTooLarge)
    } else if (kind_of_byte(s[4]) == Some(FrameKind::Ready) || kind_of_byte(s[4]) == Some(
        FrameKind::Exit,
    )) && le32(s, 8) != 4 {
        Err(ControlError::WrongFixedPayloadLength)
    } else {
        Ok(FrameHeader { kind: kind_of_byte(s[4])->0, payload_len: le32(s, 8) as u32 })
    }
}

/// The twelve wire bytes of a header: magic, kind, three zero bytes, length.
pub open spec fn frame_header_encoding(h: FrameHeader) -> Seq<u8> {
    frame_magic() + seq![kind_byte(h.kind), 0u8, 0u8, 0u8] + le_bytes(h.payload_len as int, 4)
}

impl FrameHeader {
    pub fn decode(bytes: &[u8]) -> (r: Result<Self, ControlError>)
        ensures
            r == frame_header_decoding(bytes@),
    {
        if bytes.len() != FRAME_HEADER_LEN {
            return Err(ControlError::WrongLength);
        }
        if !(bytes[0] == 0x4d && bytes[1] == 0x43 && bytes[2] == 0x46 && bytes[3] == 0x31) {
            proof {
                if bytes@.subrange(0, 4) == frame_magic() {
                    assert(bytes@.subrange(0, 4)[0] == bytes@[0]);
                    assert(bytes@.subrange(0, 4)[1] == bytes@[1]);
                    assert(bytes@.subrange(0, 4)[2] == bytes@[2]);
                    assert(bytes@.subrange(0, 4)[3] == bytes@[3]);
                }
            }
            return Err(ControlError::WrongMagic);
        }
        assert(bytes@.subrange(0, 4) =~= frame_magic());
        let kind = match FrameKind::from_byte(bytes[4]) {
            Some(kind) => kind,
            None => return Err(ControlError::UnknownKind),
        };
        if bytes[5] != 0 {
            return Err(ControlError::NonZeroFlags);
        }
        if bytes[6] != 0 || bytes[7] != 0 {
            return Err(ControlError::NonZeroReserved);
        }
        let payload_len = read_le32(bytes, 8);
        if payload_len > FRAME_MAX_PAYLOAD_LEN {
            return Err(ControlError::PayloadTooLarge);
        }
        let fixed = match kind {
            FrameKind::Ready | FrameKind::Exit => true,
            _ => false,
        };
        if fixed && payload_len != 4 {
            return Err(ControlError::WrongFixedPayloadLength);
        }
        Ok(Self { kind, payload_len })
    }

    pub fn encode(self) -> (r: [u8; 12])
        ensures
            r@ == frame_header_encoding(self),
    {
        let len = encode_u32_le(self.payload_len);
        let r = [0x4d, 0x43, 0x46, 0x31, self.kind.to_byte(), 0, 0, 0, len[0], len[1], len[2], len[3]];
        assert(r@ =~= frame_header_encoding(self));
        r
    }
}

/// Decoding what `encode` wrote gives back the header, whenever the header is
/// one that `decode` accepts at all (a payload within the limit, and four bytes
/// for `Ready` and `Exit`).
pub proof fn lemma_frame_header_round_trip(h: FrameHeader)
    requires
        h.payload_len <= FRAME_MAX_PAYLOAD_LEN,
        (h.kind == FrameKind::Ready || h.kind == FrameKind::Exit) ==> h.payload_len == 4,
    ensures
        frame_header_decoding(frame_header_encoding(h)) == Ok::<FrameHeader, ControlError>(h),
{
    let s = frame_header_encoding(h);
    crate::bytes::lemma_le32_of_bytes(h.payload_len);
    let tail = le_bytes(h.payload_len as int, 4);
    assert(s.subrange(0, 4) =~= frame_magic());
    assert(le32(s, 8) == le32(tail, 0));
}

} // verus!
