use minios::abi::syscall::{
    EBADF, ECHILD, EEXIST, EFAULT, EINVAL, EIO, EISDIR, EMFILE, ENODEV, ENOENT, ENOMEM, ENOSPC,
    ENOSYS, ENOTDIR, ENOTEMPTY, FIRST_FILE_FD, MAX_OPEN_FILES, MAX_PATH_LEN, MAX_READ_LEN,
    MAX_WRITE_LEN, SEEK_CUR, SEEK_END, SEEK_SET, STAT_KIND_DIR, STAT_KIND_FILE, STAT_LEN, STDERR,
    STDIN, STDOUT, Stat, SyscallNumber,
};

#[test]
fn syscall_numbers_and_descriptors_are_stable() {
    assert_eq!(SyscallNumber::Write.number(), 1);
    assert_eq!(SyscallNumber::Exit.number(), 2);
    assert_eq!(SyscallNumber::Read.number(), 3);
    assert_eq!(SyscallNumber::ReadFile.number(), 4);
    assert_eq!(SyscallNumber::Open.number(), 5);
    assert_eq!(SyscallNumber::Close.number(), 6);
    assert_eq!(SyscallNumber::Create.number(), 7);
    assert_eq!(SyscallNumber::Unlink.number(), 8);
    assert_eq!(SyscallNumber::Lseek.number(), 9);
    assert_eq!(SyscallNumber::Pread.number(), 10);
    assert_eq!(SyscallNumber::Pwrite.number(), 11);
    assert_eq!(SyscallNumber::Rename.number(), 12);
    assert_eq!(SyscallNumber::Mkdir.number(), 13);
    assert_eq!(SyscallNumber::Rmdir.number(), 14);
    assert_eq!(SyscallNumber::Getpid.number(), 15);
    assert_eq!(SyscallNumber::Spawn.number(), 16);
    assert_eq!(SyscallNumber::Waitpid.number(), 17);
    assert_eq!(SyscallNumber::Stat.number(), 18);
    assert_eq!(SyscallNumber::Fstat.number(), 19);
    assert_eq!(SEEK_SET, 0);
    assert_eq!(SEEK_CUR, 1);
    assert_eq!(SEEK_END, 2);
    assert_eq!(STDIN, 0);
    assert_eq!(STDOUT, 1);
    assert_eq!(STDERR, 2);
    assert_eq!(MAX_WRITE_LEN, 4096);
    assert_eq!(MAX_READ_LEN, 4096);
    assert_eq!(MAX_PATH_LEN, 256);
    assert_eq!(FIRST_FILE_FD, 3);
    assert_eq!(MAX_OPEN_FILES, 4);
    assert_eq!(ENOENT, -2);
    assert_eq!(EIO, -5);
    assert_eq!(EBADF, -9);
    assert_eq!(ECHILD, -10);
    assert_eq!(ENOMEM, -12);
    assert_eq!(EFAULT, -14);
    assert_eq!(EEXIST, -17);
    assert_eq!(ENODEV, -19);
    assert_eq!(ENOTDIR, -20);
    assert_eq!(EISDIR, -21);
    assert_eq!(EINVAL, -22);
    assert_eq!(EMFILE, -24);
    assert_eq!(ENOSPC, -28);
    assert_eq!(ENOSYS, -38);
    assert_eq!(ENOTEMPTY, -39);
    assert_eq!(STAT_KIND_FILE, 0);
    assert_eq!(STAT_KIND_DIR, 1);
    assert_eq!(STAT_LEN, 8);
}

#[test]
fn stat_serializes_size_then_kind_as_le_bytes() {
    let stat = Stat {
        size: 0x0102_0304,
        kind: STAT_KIND_DIR,
    };
    assert_eq!(
        stat.to_le_bytes(),
        [0x04, 0x03, 0x02, 0x01, 0x01, 0x00, 0x00, 0x00]
    );
    assert_eq!(Stat::from_le_bytes(stat.to_le_bytes()), stat);
}

#[test]
fn stat_bytes_survive_a_round_trip() {
    for bytes in [[0u8; 8], [0xff; 8], [1, 2, 3, 4, 5, 6, 7, 8], [0x80, 0, 0, 0x7f, 0, 0xaa, 0x55, 1]] {
        assert_eq!(Stat::from_le_bytes(bytes).to_le_bytes(), bytes);
    }
    let stat = Stat { size: 0x1234_5678, kind: STAT_KIND_DIR };
    assert_eq!(Stat::from_le_bytes(stat.to_le_bytes()), stat);
}
