//! The payload of the `Ready` control frame.

use vstd::prelude::*;
use crate::bytes::{le16, le_bytes, pow256, read_le16};

verus! {

pub const READY_PAYLOAD_LEN: usize = 4;

/// The boot ABI version that the kernel announces once it is ready.
#[derive(Debug, Clone, Copy, PartialEq, Eq, Structural)]
pub struct ReadyPayload {
    pub abi_major: u16,
    pub abi_minor: u16,
}

#[derive(Debug, Clone, Copy, PartialEq, Eq, Structural)]
pub enum ReadyPayloadError {
    WrongLength,
}

impl ReadyPayload {
    /// Decodes exactly four bytes: the major then the minor version, little-endian.
    pub fn decode(bytes: &[u8]) -> (r: Result<Self, ReadyPayloadError>)
        ensures
            bytes@.len() != READY_PAYLOAD_LEN ==> r == Err::<Self, ReadyPayloadError>(
                ReadyPayloadError::WrongLength,
            ),
            bytes@.len() == READY_PAYLOAD_LEN ==> r == Ok::<Self, ReadyPayloadError>(
                Self { abi_major: le16(bytes@, 0) as u16, abi_minor: le16(bytes@, 2) as u16 },
            ),
    {
        if bytes.len() != READY_PAYLOAD_LEN {
            return Err(ReadyPayloadError::WrongLength);
        }
        Ok(Self { abi_major: read_le16(bytes, 0), abi_minor: read_le16(bytes, 2) })
    }

    /// Encodes the two versions as four little-endian bytes.
    pub fn encode(self) -> (r: [u8; 4])
        ensures
            r@ == le_bytes(self.abi_major as int, 2) + le_bytes(self.abi_minor as int, 2),
    {
        let major = self.abi_major;
        let minor = self.abi_minor;
        let r = [(major % 0x100) as u8, (major / 0x100) as u8, (minor % 0x100) as u8, (minor
            / 0x100) as u8];
        proof {
            reveal_with_fuel(pow256, 2);
            assert(r@ =~= le_bytes(self.abi_major as int, 2) + le_bytes(self.abi_minor as int, 2));
        }
        r
    }
}

/// Decoding what `encode` wrote gives back the payload: the bytes have the
/// length `decode` accepts, and the fields read back are the ones written.
pub proof fn lemma_ready_round_trip(p: ReadyPayload)
    ensures
        ({
            let b = le_bytes(p.abi_major as int, 2) + le_bytes(p.abi_minor as int, 2);
            b.len() == 4 && (ReadyPayload { abi_major: le16(b, 0) as u16, abi_minor: le16(b, 2) as u16 }) == p
        }),
{
    let first = le_bytes(p.abi_major as int, 2);
    let second = le_bytes(p.abi_minor as int, 2);
    let b = first + second;
    crate::bytes::lemma_le16_of_bytes(p.abi_major);
    crate::bytes::lemma_le16_of_bytes(p.abi_minor);
    assert(le16(b, 0) == le16(first, 0));
    assert(le16(b, 2) == le16(second, 0));
}

} // verus!
