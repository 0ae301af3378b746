//! Small, fixed RISC-V programs that check the user-mode paths of the
//! kernel: an encoder for the few RV64I instructions they use, and the
//! probes assembled from it.
//!
//! The syscall probe writes to stdout and stderr, then provokes each
//! `write` error and an unknown syscall; after every call it compares `a0`
//! with the expected result and branches to the fail block on a mismatch.
//! Passing every check, it reaches `ebreak`, which the kernel takes as
//! success. The fail block stores to the unmapped address 0 and spins.

use vstd::prelude::*;
use crate::bytes::{byte_of, encode_u64_le, le_bytes};

verus! {

/// The integer registers the probes use.
pub const X0: u32 = 0;
pub const SP: u32 = 2;
pub const T0: u32 = 5;
pub const T1: u32 = 6;
pub const S0: u32 = 8;
pub const A0: u32 = 10;
pub const A1: u32 = 11;
pub const A2: u32 = 12;
pub const A7: u32 = 17;

/// Words in the syscall probe.
pub const PROBE_CODE_WORDS: usize = 51;
/// The first word of the syscall probe's fail block.
pub const PROBE_FAIL_INDEX: usize = 49;

/// The major opcode of conditional branches.
pub const OP_BRANCH: u32 = 0x63;

/// The low seven bits of an instruction: its major opcode.
pub open spec fn opcode(word: u32) -> u32 {
    word & 0x7f
}

/// The 13-bit branch displacement field of a B-type instruction, as the
/// hardware reassembles it from the four places it is split over.
pub open spec fn branch_imm(word: u32) -> u32 {
    (((word >> 31u32) & 1) << 12u32) | (((word >> 7u32) & 1) << 11u32) | (((word >> 25u32) & 0x3f)
        << 5u32) | (((word >> 8u32) & 0xf) << 1u32)
}

pub open spec fn addi_spec(rd: u32, rs1: u32, imm: i16) -> u32 {
    (((imm as u32) & 0xfff) << 20u32) | (rs1 << 15u32) | (rd << 7u32) | 0x13
}

pub open spec fn sb_spec(rs2: u32, rs1: u32, imm: i16) -> u32 {
    ((((imm as u32) >> 5u32) & 0x7f) << 25u32) | (rs2 << 20u32) | (rs1 << 15u32) | (((imm as u32)
        & 0x1f) << 7u32) | 0x23
}

pub open spec fn sd_spec(rs2: u32, rs1: u32, imm: i16) -> u32 {
    ((((imm as u32) >> 5u32) & 0x7f) << 25u32) | (rs2 << 20u32) | (rs1 << 15u32) | (3u32 << 12u32)
        | (((imm as u32) & 0x1f) << 7u32) | 0x23
}

pub open spec fn lui_spec(rd: u32, imm20: u32) -> u32 {
    ((imm20 & 0xfffff) << 12u32) | (rd << 7u32) | 0x37
}

pub open spec fn bne_spec(rs1: u32, rs2: u32, offset: i32) -> u32 {
    let value = offset as u32;
    (((value >> 12u32) & 1) << 31u32) | (((value >> 5u32) & 0x3f) << 25u32) | (rs2 << 20u32) | (rs1
        << 15u32) | (1u32 << 12u32) | (((value >> 1u32) & 0xf) << 8u32) | (((value >> 11u32) & 1)
        << 7u32) | 0x63
}

/// `ecall`.
pub const ECALL: u32 = 0x0000_0073;
/// `ebreak`.
pub const EBREAK: u32 = 0x0010_0073;
/// `jal x0, 0`: a jump to itself.
pub const JAL_SELF: u32 = 0x0000_006f;

/// `addi rd, rs1, imm`.
pub fn addi(rd: u32, rs1: u32, imm: i16) -> (r: u32)
    ensures
        r == addi_spec(rd, rs1, imm),
        opcode(r) == 0x13,
{
    let r = (((imm as u32) & 0xfff) << 20u32) | (rs1 << 15u32) | (rd << 7u32) | 0x13;
    assert(opcode(r) == 0x13) by (bit_vector)
        requires
            r == (((imm as u32) & 0xfff) << 20u32) | (rs1 << 15u32) | (rd << 7u32) | 0x13,
    ;
    r
}

/// `sb rs2, imm(rs1)`.
pub fn sb(rs2: u32, rs1: u32, imm: i16) -> (r: u32)
    ensures
        r == sb_spec(rs2, rs1, imm),
        opcode(r) == 0x23,
{
    let value = imm as u32;
    let r = (((value >> 5u32) & 0x7f) << 25u32) | (rs2 << 20u32) | (rs1 << 15u32) | ((value
        & 0x1f) << 7u32) | 0x23;
    assert(opcode(r) == 0x23) by (bit_vector)
        requires
            r == (((value >> 5u32) & 0x7f) << 25u32) | (rs2 << 20u32) | (rs1 << 15u32) | ((value
                & 0x1f) << 7u32) | 0x23,
    ;
    r
}

/// `sd rs2, imm(rs1)`.
pub fn sd(rs2: u32, rs1: u32, imm: i16) -> (r: u32)
    ensures
        r == sd_spec(rs2, rs1, imm),
        opcode(r) == 0x23,
{
    let value = imm as u32;
    let r = (((value >> 5u32) & 0x7f) << 25u32) | (rs2 << 20u32) | (rs1 << 15u32) | (3u32
        << 12u32) | ((value & 0x1f) << 7u32) | 0x23;
    assert(opcode(r) == 0x23) by (bit_vector)
        requires
            r == (((value >> 5u32) & 0x7f) << 25u32) | (rs2 << 20u32) | (rs1 << 15u32) | (3u32
                << 12u32) | ((value & 0x1f) << 7u32) | 0x23,
    ;
    r
}

/// `lui rd, imm20`.
pub fn lui(rd: u32, imm20: u32) -> (r: u32)
    ensures
        r == lui_spec(rd, imm20),
        opcode(r) == 0x37,
{
    let r = ((imm20 & 0xfffff) << 12u32) | (rd << 7u32) | 0x37;
    assert(opcode(r) == 0x37) by (bit_vector)
        requires
            r == ((imm20 & 0xfffff) << 12u32) | (rd << 7u32) | 0x37,
    ;
    r
}

/// `bne rs1, rs2, offset`, for an even offset that a branch can reach.
pub fn bne(rs1: u32, rs2: u32, offset: i32) -> (r: u32)
    requires
        offset % 4 == 0,
        -4096 <= offset < 4096,
    ensures
        r == bne_spec(rs1, rs2, offset),
        opcode(r) == OP_BRANCH,
        0 <= offset && rs1 < 32 && rs2 < 32 ==> branch_imm(r) == offset,
{
    let value = offset as u32;
    let r = (((value >> 12u32) & 1) << 31u32) | (((value >> 5u32) & 0x3f) << 25u32) | (rs2
        << 20u32) | (rs1 << 15u32) | (1u32 << 12u32) | (((value >> 1u32) & 0xf) << 8u32) | (((value
        >> 11u32) & 1) << 7u32) | 0x63;
    assert(opcode(r) == 0x63) by (bit_vector)
        requires
            r == (((value >> 12u32) & 1) << 31u32) | (((value >> 5u32) & 0x3f) << 25u32) | (rs2
                << 20u32) | (rs1 << 15u32) | (1u32 << 12u32) | (((value >> 1u32) & 0xf) << 8u32)
                | (((value >> 11u32) & 1) << 7u32) | 0x63,
    ;
    if 0 <= offset && rs1 < 32 && rs2 < 32 {
        assert(value % 4 == 0 && value < 4096);
        assert(branch_imm(r) == value) by (bit_vector)
            requires
                value % 4 == 0,
                value < 4096,
                rs1 < 32,
                rs2 < 32,
                r == (((value >> 12u32) & 1) << 31u32) | (((value >> 5u32) & 0x3f) << 25u32) | (rs2
                    << 20u32) | (rs1 << 15u32) | (1u32 << 12u32) | (((value >> 1u32) & 0xf)
                    << 8u32) | (((value >> 11u32) & 1) << 7u32) | 0x63,
        ;
    }
    r
}

/// `ecall`.
pub fn ecall() -> (r: u32)
    ensures
        r == ECALL,
{
    ECALL
}

/// `ebreak`.
pub fn ebreak() -> (r: u32)
    ensures
        r == EBREAK,
{
    EBREAK
}

/// `jal x0, 0`.
pub fn jal_self() -> (r: u32)
    ensures
        r == JAL_SELF,
{
    JAL_SELF
}

/// The check after a syscall at word `from`: branch to the fail block when
/// `a0` differs from `t1`.
fn branch_to_fail(from: usize) -> (r: u32)
    requires
        from < PROBE_FAIL_INDEX,
    ensures
        r == bne_spec(A0, T1, ((PROBE_FAIL_INDEX - from) * 4) as i32),
        opcode(r) == OP_BRANCH,
        from * 4 + branch_imm(r) == PROBE_FAIL_INDEX * 4,
{
    bne(A0, T1, ((PROBE_FAIL_INDEX - from) * 4) as i32)
}

/// The words of the syscall probe at which a result is checked.
pub open spec fn probe_check(k: int) -> bool {
    k == 13 || k == 20 || k == 27 || k == 35 || k == 42 || k == 47
}

/// The words of the syscall probe, in order.
pub open spec fn syscall_probe_words() -> Seq<u32> {
    seq![
        addi_spec(S0, SP, -64i16),
        addi_spec(T0, X0, 0x4di16),
        sb_spec(T0, S0, 0i16),
        addi_spec(T0, X0, 0x4bi16),
        sb_spec(T0, S0, 1i16),
        addi_spec(T0, X0, 0x34i16),
        sb_spec(T0, S0, 2i16),
        addi_spec(A0, X0, 1i16),
        addi_spec(A1, S0, 0i16),
        addi_spec(A2, X0, 3i16),
        addi_spec(A7, X0, 1i16),
        ECALL,
        addi_spec(T1, X0, 3i16),
        bne_spec(A0, T1, 144i32),
        addi_spec(A0, X0, 2i16),
        addi_spec(A1, S0, 0i16),
        addi_spec(A2, X0, 3i16),
        addi_spec(A7, X0, 1i16),
        ECALL,
        addi_spec(T1, X0, 3i16),
        bne_spec(A0, T1, 116i32),
        addi_spec(A0, X0, 3i16),
        addi_spec(A1, S0, 0i16),
        addi_spec(A2, X0, 3i16),
        addi_spec(A7, X0, 1i16),
        ECALL,
        addi_spec(T1, X0, -9i16),
        bne_spec(A0, T1, 88i32),
        addi_spec(A0, X0, 1i16),
        addi_spec(A1, S0, 0i16),
        lui_spec(A2, 1u32),
        addi_spec(A2, A2, 1i16),
        addi_spec(A7, X0, 1i16),
        ECALL,
        addi_spec(T1, X0, -22i16),
        bne_spec(A0, T1, 56i32),
        addi_spec(A0, X0, 1i16),
        addi_spec(A1, X0, 0i16),
        addi_spec(A2, X0, 4i16),
        addi_spec(A7, X0, 1i16),
        ECALL,
        addi_spec(T1, X0, -14i16),
        bne_spec(A0, T1, 28i32),
        addi_spec(A0, X0, 0i16),
        addi_spec(A7, X0, 999i16),
        ECALL,
        addi_spec(T1, X0, -38i16),
        bne_spec(A0, T1, 8i32),
        EBREAK,
        sd_spec(X0, X0, 0i16),
        JAL_SELF,
    ]
}

/// Assembles the syscall probe: it builds "MK4" on the stack, and checks
/// `write(1, s0, 3) == 3`, `write(2, s0, 3) == 3`, `write(3, ..) == EBADF`,
/// `write(1, s0, 4097) == EINVAL`, `write(1, 0, 4) == EFAULT` and an unknown
/// syscall `== ENOSYS`, then stops at `ebreak`.
pub fn assemble_syscall_probe() -> (r: [u32; 51])
    ensures
        r@ == syscall_probe_words(),
        r@[PROBE_FAIL_INDEX - 1] == EBREAK,
        r@[PROBE_FAIL_INDEX as int] == sd_spec(X0, X0, 0),
        r@[PROBE_FAIL_INDEX + 1] == JAL_SELF,
        forall|k: int| 0 <= k < PROBE_CODE_WORDS ==> (opcode(#[trigger] r@[k]) == OP_BRANCH <==> probe_check(k)),
        forall|k: int|
            0 <= k < PROBE_CODE_WORDS && opcode(#[trigger] r@[k]) == OP_BRANCH ==> k * 4 + branch_imm(
                r@[k],
            ) == PROBE_FAIL_INDEX * 4,
{
    let mut code: [u32; 51] = vstd::array::array_fill_for_copy_types(0u32);
    // s0 = sp - 64; "MK4" goes there.
    code[0] = addi(S0, SP, -64);
    code[1] = addi(T0, X0, 0x4d);
    code[2] = sb(T0, S0, 0);
    code[3] = addi(T0, X0, 0x4b);
    code[4] = sb(T0, S0, 1);
    code[5] = addi(T0, X0, 0x34);
    code[6] = sb(T0, S0, 2);
    // write(1, s0, 3) == 3
    code[7] = addi(A0, X0, 1);
    code[8] = addi(A1, S0, 0);
    code[9] = addi(A2, X0, 3);
    code[10] = addi(A7, X0, 1);
    code[11] = ecall();
    code[12] = addi(T1, X0, 3);
    code[13] = branch_to_fail(13);
    // write(2, s0, 3) == 3
    code[14] = addi(A0, X0, 2);
    code[15] = addi(A1, S0, 0);
    code[16] = addi(A2, X0, 3);
    code[17] = addi(A7, X0, 1);
    code[18] = ecall();
    code[19] = addi(T1, X0, 3);
    code[20] = branch_to_fail(20);
    // write(3, s0, 3) == EBADF
    code[21] = addi(A0, X0, 3);
    code[22] = addi(A1, S0, 0);
    code[23] = addi(A2, X0, 3);
    code[24] = addi(A7, X0, 1);
    code[25] = ecall();
    code[26] = addi(T1, X0, -9);
    code[27] = branch_to_fail(27);
    // write(1, s0, 4097) == EINVAL
    code[28] = addi(A0, X0, 1);
    code[29] = addi(A1, S0, 0);
    code[30] = lui(A2, 1);
    code[31] = addi(A2, A2, 1);
    code[32] = addi(A7, X0, 1);
    code[33] = ecall();
    code[34] = addi(T1, X0, -22);
    code[35] = branch_to_fail(35);
    // write(1, 0, 4) == EFAULT
    code[36] = addi(A0, X0, 1);
    code[37] = addi(A1, X0, 0);
    code[38] = addi(A2, X0, 4);
    code[39] = addi(A7, X0, 1);
    code[40] = ecall();
    code[41] = addi(T1, X0, -14);
    code[42] = branch_to_fail(42);
    // syscall 999 == ENOSYS
    code[43] = addi(A0, X0, 0);
    code[44] = addi(A7, X0, 999);
    code[45] = ecall();
    code[46] = addi(T1, X0, -38);
    code[47] = branch_to_fail(47);
    // Every check passed: the kernel reports success.
    code[48] = ebreak();
    code[49] = sd(X0, X0, 0);
    code[50] = jal_self();
    assert(opcode(ECALL) == 0x73 && opcode(EBREAK) == 0x73 && opcode(JAL_SELF) == 0x6f)
        by (bit_vector);
    assert(code@ =~= syscall_probe_words());
    code
}

/// Words in the exit probe.
pub const EXIT_PROBE_CODE_WORDS: usize = 22;
/// The first word of the exit probe's fail block.
pub const EXIT_PROBE_FAIL_INDEX: usize = 20;
/// The size of the syscall probe's ELF file.
pub const USER_SYSCALL_ELF_LEN: usize = 0x1000 + PROBE_CODE_WORDS * 4;
/// The size of the exit probe's ELF file.
pub const USER_EXIT_ELF_LEN: usize = 0x1000 + EXIT_PROBE_CODE_WORDS * 4;
/// The size of the two-segment test executable.
pub const ELF_LEN: usize = 0x2004;

/// The words of the exit probe, in order: "MK5" on the stack, written to
/// stdout and to stderr, then `exit(42)`; the fail block follows.
pub open spec fn exit_probe_words() -> Seq<u32> {
    seq![
        addi_spec(S0, SP, -64i16),
        addi_spec(T0, X0, 0x4di16),
        sb_spec(T0, S0, 0i16),
        addi_spec(T0, X0, 0x4bi16),
        sb_spec(T0, S0, 1i16),
        addi_spec(T0, X0, 0x35i16),
        sb_spec(T0, S0, 2i16),
        addi_spec(A0, X0, 1i16),
        addi_spec(A1, S0, 0i16),
        addi_spec(A2, X0, 3i16),
        addi_spec(A7, X0, 1i16),
        ECALL,
        addi_spec(A0, X0, 2i16),
        addi_spec(A1, S0, 0i16),
        addi_spec(A2, X0, 3i16),
        addi_spec(A7, X0, 1i16),
        ECALL,
        addi_spec(A0, X0, 42i16),
        addi_spec(A7, X0, 2i16),
        ECALL,
        sd_spec(X0, X0, 0i16),
        JAL_SELF,
    ]
}

/// Assembles the exit probe. It has no branch: only a kernel that returns
/// from `exit` reaches the fail block.
pub fn assemble_exit_probe() -> (r: [u32; 22])
    ensures
        r@ == exit_probe_words(),
        forall|k: int| 0 <= k < EXIT_PROBE_CODE_WORDS ==> opcode(#[trigger] r@[k]) != OP_BRANCH,
{
    let mut code: [u32; 22] = vstd::array::array_fill_for_copy_types(0u32);
    code[0] = addi(S0, SP, -64);
    code[1] = addi(T0, X0, 0x4d);
    code[2] = sb(T0, S0, 0);
    code[3] = addi(T0, X0, 0x4b);
    code[4] = sb(T0, S0, 1);
    code[5] = addi(T0, X0, 0x35);
    code[6] = sb(T0, S0, 2);
    // write(1, s0, 3)
    code[7] = addi(A0, X0, 1);
    code[8] = addi(A1, S0, 0);
    code[9] = addi(A2, X0, 3);
    code[10] = addi(A7, X0, 1);
    code[11] = ecall();
    // write(2, s0, 3)
    code[12] = addi(A0, X0, 2);
    code[13] = addi(A1, S0, 0);
    code[14] = addi(A2, X0, 3);
    code[15] = addi(A7, X0, 1);
    code[16] = ecall();
    // exit(42); only a kernel that comes back falls into the fail block.
    code[17] = addi(A0, X0, 42);
    code[18] = addi(A7, X0, 2);
    code[19] = ecall();
    code[20] = sd(X0, X0, 0);
    code[21] = jal_self();
    assert(opcode(ECALL) == 0x73 && opcode(JAL_SELF) == 0x6f) by (bit_vector);
    assert(code@ =~= exit_probe_words());
    code
}

/// `n` zero bytes.
pub open spec fn zeros(n: nat) -> Seq<u8> {
    Seq::new(n, |i: int| 0u8)
}

/// The 64-byte header of a static, little-endian ELF64 RISC-V executable
/// with entry `entry` and `program_headers` program headers right after it.
pub open spec fn elf_file_header(entry: u64, program_headers: u16) -> Seq<u8> {
    seq![0x7fu8, 0x45, 0x4c, 0x46, 2, 1, 1] + zeros(9) + le_bytes(2, 2) + le_bytes(243, 2)
        + le_bytes(1, 4) + le_bytes(entry as int, 8) + le_bytes(64, 8) + zeros(12) + le_bytes(
        64,
        2,
    ) + le_bytes(56, 2) + le_bytes(program_headers as int, 2) + zeros(6)
}

/// A 56-byte `PT_LOAD` program header.
pub open spec fn load_header(
    flags: u32,
    offset: u64,
    virtual_address: u64,
    file_size: u64,
    memory_size: u64,
    alignment: u64,
) -> Seq<u8> {
    le_bytes(1, 4) + le_bytes(flags as int, 4) + le_bytes(offset as int, 8) + le_bytes(
        virtual_address as int,
        8,
    ) + zeros(8) + le_bytes(file_size as int, 8) + le_bytes(memory_size as int, 8) + le_bytes(
        alignment as int,
        8,
    )
}

/// Instruction words as little-endian bytes.
pub open spec fn code_bytes(code: Seq<u32>) -> Seq<u8> {
    Seq::new(4 * code.len(), |i: int| byte_of(code[i / 4] as int, (i % 4) as nat))
}

/// A probe executable: one read-execute segment at `0x0010_0000`, one page
/// in memory, holding `code` at file offset `0x1000`.
pub open spec fn probe_elf(code: Seq<u32>) -> Seq<u8> {
    elf_file_header(0x10_0000, 1) + load_header(5, 0x1000, 0x10_0000, (4 * code.len()) as u64, 0x1000, 0x1000)
        + zeros(3976) + code_bytes(code)
}

/// The two-segment test executable: a text segment holding one `nop` at
/// `0x0010_0000`, and a data segment holding "MCB1" at `0x0020_0000` in one
/// page of memory.
pub open spec fn two_segment_elf() -> Seq<u8> {
    elf_file_header(0x10_0000, 2) + load_header(5, 0x1000, 0x10_0000, 4, 4, 0x1000) + load_header(
        6,
        0x2000,
        0x20_0000,
        4,
        0x1000,
        0x1000,
    ) + zeros(3920) + seq![0x13u8, 0, 0, 0] + zeros(4092) + seq![0x4du8, 0x43, 0x42, 0x31]
}

/// Writes the `width` low bytes of `value`, little-endian, at `at`.
fn put_le<const N: usize>(bytes: &mut [u8; N], at: usize, value: u64, width: usize)
    requires
        at + width <= N,
        width <= 8,
    ensures
        final(bytes)@ == old(bytes)@.subrange(0, at as int) + le_bytes(value as int, width as nat)
            + old(bytes)@.subrange(at + width, N as int),
{
    let encoded = encode_u64_le(value);
    let mut i: usize = 0;
    while i < width
        invariant
            at + width <= N,
            width <= 8,
            i <= width,
            bytes@.len() == N,
            encoded@ == le_bytes(value as int, 8),
            forall|j: int| 0 <= j < at ==> bytes@[j] == old(bytes)@[j],
            forall|j: int| at + width <= j < N ==> bytes@[j] == old(bytes)@[j],
            forall|j: int| 0 <= j < i ==> bytes@[at + j] == encoded@[j],
        decreases width - i,
    {
        bytes[at + i] = encoded[i];
        i = i + 1;
    }
    let ghost expected = old(bytes)@.subrange(0, at as int) + le_bytes(value as int, width as nat)
        + old(bytes)@.subrange(at + width, N as int);
    assert forall|j: int| 0 <= j < N implies bytes@[j] == expected[j] by {
        if at <= j < at + width {
            assert(bytes@[at + (j - at)] == encoded@[j - at]);
        }
    }
    assert(bytes@ =~= expected);
}

/// Writes the ELF file header over the first 64 bytes.
fn write_file_header<const N: usize>(bytes: &mut [u8; N], entry: u64, program_headers: u16)
    requires
        N >= 64,
    ensures
        final(bytes)@ == elf_file_header(entry, program_headers) + old(bytes)@.subrange(64, N as int),
{
    bytes[0] = 0x7f;
    bytes[1] = 0x45;
    bytes[2] = 0x4c;
    bytes[3] = 0x46;
    bytes[4] = 2;
    bytes[5] = 1;
    bytes[6] = 1;
    put_le(bytes, 7, 0, 1);
    put_le(bytes, 8, 0, 8);
    put_le(bytes, 16, 2, 2);
    put_le(bytes, 18, 243, 2);
    put_le(bytes, 20, 1, 4);
    put_le(bytes, 24, entry, 8);
    put_le(bytes, 32, 64, 8);
    put_le(bytes, 40, 0, 8);
    put_le(bytes, 48, 0, 4);
    put_le(bytes, 52, 64, 2);
    put_le(bytes, 54, 56, 2);
    put_le(bytes, 56, program_headers as u64, 2);
    put_le(bytes, 58, 0, 6);
    proof {
        crate::bytes::lemma_le_bytes_zero(1);
        crate::bytes::lemma_le_bytes_zero(8);
        crate::bytes::lemma_le_bytes_zero(4);
        crate::bytes::lemma_le_bytes_zero(6);
        assert(le_bytes(0, 8) + le_bytes(0, 4) =~= zeros(12));
        assert(le_bytes(0, 1) + le_bytes(0, 8) =~= zeros(9));
    }
    assert(bytes@ =~= elf_file_header(entry, program_headers) + old(bytes)@.subrange(64, N as int));
}

/// Writes a `PT_LOAD` program header at `at`.
#[verifier::rlimit(40)]
fn write_load_header<const N: usize>(
    bytes: &mut [u8; N],
    at: usize,
    flags: u32,
    offset: u64,
    virtual_address: u64,
    file_size: u64,
    memory_size: u64,
    alignment: u64,
)
    requires
        at + 56 <= N,
    ensures
        final(bytes)@ == old(bytes)@.subrange(0, at as int) + load_header(
            flags,
            offset,
            virtual_address,
            file_size,
            memory_size,
            alignment,
        ) + old(bytes)@.subrange(at + 56, N as int),
{
    put_le(bytes, at, 1, 4);
    put_le(bytes, at + 4, flags as u64, 4);
    put_le(bytes, at + 8, offset, 8);
    put_le(bytes, at + 16, virtual_address, 8);
    put_le(bytes, at + 24, 0, 8);
    put_le(bytes, at + 32, file_size, 8);
    put_le(bytes, at + 40, memory_size, 8);
    put_le(bytes, at + 48, alignment, 8);
    proof {
        crate::bytes::lemma_le_bytes_zero(8);
    }
    assert(bytes@ =~= old(bytes)@.subrange(0, at as int) + load_header(
        flags,
        offset,
        virtual_address,
        file_size,
        memory_size,
        alignment,
    ) + old(bytes)@.subrange(at + 56, N as int));
}

/// Writes `code` as little-endian words at `at`.
fn write_code<const N: usize>(bytes: &mut [u8; N], at: usize, code: &[u32])
    requires
        at + 4 * code@.len() <= N,
    ensures
        final(bytes)@ == old(bytes)@.subrange(0, at as int) + code_bytes(code@) + old(
            bytes,
        )@.subrange(at + 4 * code@.len(), N as int),
{
    let mut k: usize = 0;
    while k < code.len()
        invariant
            at + 4 * code@.len() <= N,
            k <= code@.len(),
            bytes@.len() == N,
            forall|j: int| 0 <= j < at ==> bytes@[j] == old(bytes)@[j],
            forall|j: int| at + 4 * code@.len() <= j < N ==> bytes@[j] == old(bytes)@[j],
            forall|j: int| 0 <= j < 4 * k ==> bytes@[at + j] == code_bytes(code@)[j],
        decreases code@.len() - k,
    {
        let ghost before = bytes@;
        put_le(bytes, at + 4 * k, code[k] as u64, 4);
        assert forall|j: int| 0 <= j < 4 * (k + 1) implies bytes@[at + j] == code_bytes(code@)[j] by {
            if j >= 4 * k {
                let d = j - 4 * k;
                assert(j / 4 == k as int && j % 4 == d) by (nonlinear_arith)
                    requires
                        j == 4 * k + d,
                        0 <= d < 4,
                ;
            }
        }
        k = k + 1;
    }
    assert(bytes@ =~= old(bytes)@.subrange(0, at as int) + code_bytes(code@) + old(
        bytes,
    )@.subrange(at + 4 * code@.len(), N as int));
}

/// The syscall probe as an executable: its code is the whole text segment.
pub fn user_syscall_probe_elf() -> (r: [u8; USER_SYSCALL_ELF_LEN])
    ensures
        r@ == probe_elf(syscall_probe_words()),
{
    let code = assemble_syscall_probe();
    let mut bytes: [u8; USER_SYSCALL_ELF_LEN] = vstd::array::array_fill_for_copy_types(0u8);
    let ghost blank = bytes@;
    write_file_header(&mut bytes, 0x10_0000, 1);
    write_load_header(&mut bytes, 64, 5, 0x1000, 0x10_0000, (PROBE_CODE_WORDS * 4) as u64, 0x1000, 0x1000);
    write_code(&mut bytes, 0x1000, code.as_slice());
    assert(blank.subrange(120, 0x1000) =~= zeros(3976));
    assert(bytes@ =~= probe_elf(syscall_probe_words()));
    bytes
}

/// The exit probe as an executable: its code is the whole text segment.
pub fn user_exit_probe_elf() -> (r: [u8; USER_EXIT_ELF_LEN])
    ensures
        r@ == probe_elf(exit_probe_words()),
{
    let code = assemble_exit_probe();
    let mut bytes: [u8; USER_EXIT_ELF_LEN] = vstd::array::array_fill_for_copy_types(0u8);
    let ghost blank = bytes@;
    write_file_header(&mut bytes, 0x10_0000, 1);
    write_load_header(&mut bytes, 64, 5, 0x1000, 0x10_0000, (EXIT_PROBE_CODE_WORDS * 4) as u64, 0x1000, 0x1000);
    write_code(&mut bytes, 0x1000, code.as_slice());
    assert(blank.subrange(120, 0x1000) =~= zeros(3976));
    assert(bytes@ =~= probe_elf(exit_probe_words()));
    bytes
}

/// The two-segment test executable.
pub fn valid_riscv64_elf() -> (r: [u8; ELF_LEN])
    ensures
        r@ == two_segment_elf(),
{
    let mut bytes: [u8; ELF_LEN] = vstd::array::array_fill_for_copy_types(0u8);
    write_file_header(&mut bytes, 0x10_0000, 2);
    write_load_header(&mut bytes, 64, 5, 0x1000, 0x10_0000, 4, 4, 0x1000);
    write_load_header(&mut bytes, 120, 6, 0x2000, 0x20_0000, 4, 0x1000, 0x1000);
    bytes[0x1000] = 0x13;
    bytes[0x2000] = 0x4d;
    bytes[0x2001] = 0x43;
    bytes[0x2002] = 0x42;
    bytes[0x2003] = 0x31;
    assert(bytes@ =~= two_segment_elf());
    bytes
}

} // verus!
