use minios::elf::fixture::{
    EXIT_PROBE_FAIL_INDEX, PROBE_FAIL_INDEX, USER_EXIT_ELF_LEN, USER_SYSCALL_ELF_LEN, X0,
    addi, assemble_exit_probe, assemble_syscall_probe, bne, ebreak, ecall, jal_self, lui, sb, sd,
    user_exit_probe_elf, user_syscall_probe_elf, valid_riscv64_elf,
};
use minios::elf::header::ElfImage;
use minios::elf::plan::LoadPlan;

#[test]
fn syscall_probe_elf_parses_and_plans_with_one_executable_segment() {
    let bytes = user_syscall_probe_elf();
    let image = ElfImage::parse(&bytes).unwrap();
    let plan = LoadPlan::new(&image).unwrap();

    assert_eq!(image.entry().as_u64(), 0x0010_0000);
    assert_eq!(plan.segments().iter().count(), 1);
    let segment = plan.segments().iter().next().unwrap();
    assert_eq!(segment.first_page().start().as_u64(), 0x0010_0000);
    assert_eq!(segment.flags().user(), true);
    assert_eq!(segment.flags().read(), true);
    assert_eq!(segment.flags().execute(), true);
    assert_eq!(segment.flags().write(), false);
}

#[test]
fn syscall_probe_code_ends_with_the_success_signal_and_the_fail_block() {
    let bytes = user_syscall_probe_elf();
    let success_slot = 0x1000 + (PROBE_FAIL_INDEX - 1) * 4;
    let fail_slot = 0x1000 + PROBE_FAIL_INDEX * 4;
    let mut word = [0u8; 4];
    word.copy_from_slice(&bytes[success_slot..success_slot + 4]);
    assert_eq!(word, ebreak().to_le_bytes());
    word.copy_from_slice(&bytes[fail_slot..fail_slot + 4]);
    // The fail block is `sd x0, 0(x0)`: a store to the unmapped address 0.
    assert_eq!(word, sd(X0, X0, 0).to_le_bytes());
    assert_eq!(bytes.len(), USER_SYSCALL_ELF_LEN);
}

#[test]
fn every_syscall_result_branch_targets_the_fail_block() {
    let code = assemble_syscall_probe();
    let mut branch_count = 0;

    for (index, word) in code.into_iter().enumerate() {
        if word & 0x7f != 0x63 {
            continue;
        }
        branch_count += 1;
        let immediate = (((word >> 31) & 0x1) << 12)
            | (((word >> 7) & 0x1) << 11)
            | (((word >> 25) & 0x3f) << 5)
            | (((word >> 8) & 0xf) << 1);
        let signed_immediate = ((immediate as i32) << 19) >> 19;
        let target = index as i32 * 4 + signed_immediate;

        assert_eq!(target, PROBE_FAIL_INDEX as i32 * 4);
    }

    assert_eq!(branch_count, 6);
}

#[test]
fn exit_probe_elf_is_a_loadable_user_executable() {
    let bytes = user_exit_probe_elf();
    let image = ElfImage::parse(&bytes).unwrap();
    let plan = LoadPlan::new(&image).unwrap();

    assert_eq!(image.entry().as_u64(), 0x0010_0000);
    assert_eq!(plan.segments().iter().count(), 1);
    let segment = plan.segments().iter().next().unwrap();
    assert!(segment.flags().user());
    assert!(segment.flags().read());
    assert!(segment.flags().execute());
    assert!(!segment.flags().write());
}

#[test]
fn exit_probe_ends_in_exit_then_the_fail_block() {
    let code = assemble_exit_probe();
    assert_eq!(code[EXIT_PROBE_FAIL_INDEX - 3], addi(10, 0, 42));
    assert_eq!(code[EXIT_PROBE_FAIL_INDEX - 2], addi(17, 0, 2));
    assert_eq!(code[EXIT_PROBE_FAIL_INDEX - 1], ecall());
    assert_eq!(code[EXIT_PROBE_FAIL_INDEX], sd(X0, X0, 0));
    assert_eq!(code[EXIT_PROBE_FAIL_INDEX + 1], jal_self());
    assert!(code.iter().all(|word| word & 0x7f != 0x63));
    assert_eq!(user_exit_probe_elf().len(), USER_EXIT_ELF_LEN);
}

#[test]
fn instruction_encodings() {
    // addi x0, x0, 0 is the canonical nop.
    assert_eq!(addi(0, 0, 0), 0x0000_0013);
    // addi s0, sp, -64
    assert_eq!(addi(8, 2, -64), 0xfc01_0413);
    // sb t0, 1(s0)
    assert_eq!(sb(5, 8, 1), 0x0054_00a3);
    // sd x0, 0(x0)
    assert_eq!(sd(0, 0, 0), 0x0000_3023);
    // lui a2, 1
    assert_eq!(lui(12, 1), 0x0000_1637);
    // bne a0, t1, 8 and bne a0, t1, -4
    assert_eq!(bne(10, 6, 8), 0x0065_1463);
    assert_eq!(bne(10, 6, -4), 0xfe65_1ee3);
    assert_eq!(ecall(), 0x0000_0073);
    assert_eq!(ebreak(), 0x0010_0073);
    assert_eq!(jal_self(), 0x0000_006f);
}

#[test]
fn two_segment_executable_holds_a_nop_and_its_data() {
    let bytes = valid_riscv64_elf();
    assert_eq!(&bytes[0..4], b"\x7fELF");
    assert_eq!(&bytes[0x1000..0x1004], &[0x13, 0, 0, 0]);
    assert_eq!(&bytes[0x2000..0x2004], b"MCB1");
    let image = ElfImage::parse(&bytes).unwrap();
    let plan = LoadPlan::new(&image).unwrap();
    assert_eq!(plan.segments().len(), 2);
}
