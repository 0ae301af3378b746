//! The payload of the control frame that reports the exit of one process.

use vstd::prelude::*;
use crate::bytes::{encode_u32_le, le32, le_bytes, read_le32};

verus! {

pub const PROC_EXIT_PAYLOAD_LEN: usize = 8;

/// Reports to the host that one process of a multi-image bundle ended:
/// `pid` is the image index in the manifest (from 0), paired with its exit code.
#[derive(Debug, Clone, Copy, PartialEq, Eq, Structural)]
pub struct ProcExitPayload {
    pub pid: u32,
    pub code: u32,
}

#[derive(Debug, Clone, Copy, PartialEq, Eq, Structural)]
pub enum ProcExitPayloadError {
    WrongLength,
}

impl ProcExitPayload {
    /// Decodes exactly eight bytes: the pid then the code, both little-endian.
    pub fn decode(bytes: &[u8]) -> (r: Result<Self, ProcExitPayloadError>)
        ensures
            bytes@.len() != PROC_EXIT_PAYLOAD_LEN ==> r == Err::<Self, ProcExitPayloadError>(
                ProcExitPayloadError::WrongLength,
            ),
            bytes@.len() == PROC_EXIT_PAYLOAD_LEN ==> r == Ok::<Self, ProcExitPayloadError>(
                Self { pid: le32(bytes@, 0) as u32, code: le32(bytes@, 4) as u32 },
            ),
    {
        if bytes.len() != PROC_EXIT_PAYLOAD_LEN {
            return Err(ProcExitPayloadError::WrongLength);
        }
        Ok(Self { pid: read_le32(bytes, 0), code: read_le32(bytes, 4) })
    }

    /// Encodes the pid then the code as eight little-endian bytes.
    pub fn encode(self) -> (r: [u8; 8])
        ensures
            r@ == le_bytes(self.pid as int, 4) + le_bytes(self.code as int, 4),
    {
        let p = encode_u32_le(self.pid);
        let c = encode_u32_le(self.code);
        let r = [p[0], p[1], p[2], p[3], c[0], c[1], c[2], c[3]];
        assert(r@ =~= p@ + c@);
        r
    }
}

/// Decoding what `encode` wrote gives back the payload: the bytes have the
/// length `decode` accepts, and the fields read back are the ones written.
pub proof fn lemma_proc_exit_round_trip(p: ProcExitPayload)
    ensures
        ({
            let b = le_bytes(p.pid as int, 4) + le_bytes(p.code as int, 4);
            b.len() == 8 && (ProcExitPayload { pid: le32(b, 0) as u32, code: le32(b, 4) as u32 }) == p
        }),
{
    let first = le_bytes(p.pid as int, 4);
    let second = le_bytes(p.code as int, 4);
    let b = first + second;
    crate::bytes::lemma_le32_of_bytes(p.pid);
    crate::bytes::lemma_le32_of_bytes(p.code);
    assert(le32(b, 0) == le32(first, 0));
    assert(le32(b, 4) == le32(second, 0));
}

} // verus!
