//! System call numbers, descriptor and errno constants, and the `Stat` record.

use vstd::prelude::*;
use crate::bytes::{encode_u32_le, le32, le_bytes, read_le32};


verus! {

/// The system calls a guest can make; its number in `a7` is [`SyscallNumber::number`].
#[derive(Debug, Clone, Copy, PartialEq, Eq, Structural)]
pub enum SyscallNumber {
    Write,
    Exit,
    Read,
    ReadFile,
    Open,
    Close,
    Create,
    Unlink,
    Lseek,
    Pread,
    Pwrite,
    Rename,
    Mkdir,
    Rmdir,
    /// Returns the pid of the calling process.
    Getpid,
    /// Starts the ELF file at the FAT32 path in `a0`/`a1` as a new process
    /// and returns the child's pid.
    Spawn,
    /// Waits for the process whose pid is in `a0` to end and returns its exit code.
    Waitpid,
    /// Writes the metadata of the FAT32 path in `a0`/`a1` as an 8-byte `Stat`.
    Stat,
    /// Writes the metadata of the file behind descriptor `a0` as an 8-byte `Stat`.
    Fstat,
}

pub open spec fn syscall_number(n: SyscallNumber) -> usize {
    match n {
        SyscallNumber::Write => 1,
        SyscallNumber::Exit => 2,
        SyscallNumber::Read => 3,
        SyscallNumber::ReadFile => 4,
        SyscallNumber::Open => 5,
        SyscallNumber::Close => 6,
        SyscallNumber::Create => 7,
        SyscallNumber::Unlink => 8,
        SyscallNumber::Lseek => 9,
        SyscallNumber::Pread => 10,
        SyscallNumber::Pwrite => 11,
        SyscallNumber::Rename => 12,
        SyscallNumber::Mkdir => 13,
        SyscallNumber::Rmdir => 14,
        SyscallNumber::Getpid => 15,
        SyscallNumber::Spawn => 16,
        SyscallNumber::Waitpid => 17,
        SyscallNumber::Stat => 18,
        SyscallNumber::Fstat => 19,
    }
}

impl SyscallNumber {
    /// The stable number of this system call.
    pub fn number(self) -> (r: usize)
        ensures
            r == syscall_number(self),
    {
        match self {
            SyscallNumber::Write => 1,
            SyscallNumber::Exit => 2,
            SyscallNumber::Read => 3,
            SyscallNumber::ReadFile => 4,
            SyscallNumber::Open => 5,
            SyscallNumber::Close => 6,
            SyscallNumber::Create => 7,
            SyscallNumber::Unlink => 8,
            SyscallNumber::Lseek => 9,
            SyscallNumber::Pread => 10,
            SyscallNumber::Pwrite => 11,
            SyscallNumber::Rename => 12,
            SyscallNumber::Mkdir => 13,
            SyscallNumber::Rmdir => 14,
            SyscallNumber::Getpid => 15,
            SyscallNumber::Spawn => 16,
            SyscallNumber::Waitpid => 17,
            SyscallNumber::Stat => 18,
            SyscallNumber::Fstat => 19,
        }
    }
}

pub const STDIN: usize = 0;
pub const STDOUT: usize = 1;
pub const STDERR: usize = 2;
pub const MAX_WRITE_LEN: usize = 4096;
pub const MAX_READ_LEN: usize = 4096;
pub const MAX_PATH_LEN: usize = 256;
pub const FIRST_FILE_FD: usize = 3;
pub const MAX_OPEN_FILES: usize = 4;

/// `lseek` whence: an absolute offset from the start of the file.
pub const SEEK_SET: usize = 0;
/// `lseek` whence: relative to the current descriptor offset.
pub const SEEK_CUR: usize = 1;
/// `lseek` whence: relative to the end of the file.
pub const SEEK_END: usize = 2;

/// `Stat::kind` of a regular file.
pub const STAT_KIND_FILE: u32 = 0;
/// `Stat::kind` of a directory.
pub const STAT_KIND_DIR: u32 = 1;
/// The byte length of a serialized `Stat`.
pub const STAT_LEN: usize = 8;

/// Metadata that `stat`/`fstat` write to the guest: `size` in bytes (0 for a
/// directory, as FAT32 records it) and `kind`, one of `STAT_KIND_*`.
#[derive(Debug, Clone, Copy, PartialEq, Eq, Structural)]
pub struct Stat {
    pub size: u32,
    pub kind: u32,
}

impl Stat {
    /// Serializes as eight little-endian bytes: `size` then `kind`.
    pub fn to_le_bytes(self) -> (r: [u8; 8])
        ensures
            r@ == le_bytes(self.size as int, 4) + le_bytes(self.kind as int, 4),
    {
        let size = encode_u32_le(self.size);
        let kind = encode_u32_le(self.kind);
        let r = [size[0], size[1], size[2], size[3], kind[0], kind[1], kind[2], kind[3]];
        assert(r@ =~= size@ + kind@);
        r
    }

    /// Reads back the layout that `to_le_bytes` writes.
    pub fn from_le_bytes(bytes: [u8; 8]) -> (r: Self)
        ensures
            r == (Stat { size: le32(bytes@, 0) as u32, kind: le32(bytes@, 4) as u32 }),
    {
        let s = bytes.as_slice();
        Self { size: read_le32(s, 0), kind: read_le32(s, 4) }
    }
}

/// Reading back what `to_le_bytes` wrote gives the same `Stat`.
pub proof fn lemma_stat_round_trip(stat: Stat)
    ensures
        ({
            let s = le_bytes(stat.size as int, 4) + le_bytes(stat.kind as int, 4);
            le32(s, 0) == stat.size && le32(s, 4) == stat.kind
        }),
{
    let a = le_bytes(stat.size as int, 4);
    let b = le_bytes(stat.kind as int, 4);
    crate::bytes::lemma_le32_of_bytes(stat.size);
    crate::bytes::lemma_le32_of_bytes(stat.kind);
    let s = a + b;
    assert(le32(s, 0) == le32(a, 0));
    assert(le32(s, 4) == le32(b, 0));
}

/// Writing back what `from_le_bytes` read gives the same eight bytes.
pub proof fn lemma_stat_bytes_round_trip(bytes: Seq<u8>)
    requires
        bytes.len() == STAT_LEN,
    ensures
        ({
            let stat = Stat { size: le32(bytes, 0) as u32, kind: le32(bytes, 4) as u32 };
            le_bytes(stat.size as int, 4) + le_bytes(stat.kind as int, 4) == bytes
        }),
{
    let a = bytes.subrange(0, 4);
    let b = bytes.subrange(4, 8);
    assert(le32(bytes, 0) == le32(a, 0));
    assert(le32(bytes, 4) == le32(b, 0));
    crate::bytes::lemma_le_bytes_of_le32(a);
    crate::bytes::lemma_le_bytes_of_le32(b);
    assert(le32(a, 0) < 0x1_0000_0000 && le32(b, 0) < 0x1_0000_0000);
    assert(le_bytes(le32(a, 0), 4) + le_bytes(le32(b, 0), 4) =~= bytes);
}

pub const ENOENT: isize = -2;
pub const EIO: isize = -5;
pub const EBADF: isize = -9;
pub const ECHILD: isize = -10;
pub const ENOMEM: isize = -12;
pub const EFAULT: isize = -14;
pub const EEXIST: isize = -17;
pub const ENODEV: isize = -19;
pub const ENOTDIR: isize = -20;
pub const EISDIR: isize = -21;
pub const EINVAL: isize = -22;
pub const EMFILE: isize = -24;
pub const ENOSPC: isize = -28;
pub const ENOSYS: isize = -38;
pub const ENOTEMPTY: isize = -39;

} // verus!
