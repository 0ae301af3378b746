use minios::elf::fixture::valid_riscv64_elf;
use minios::elf::header::{ElfError, ElfImage, ProgramHeaders};
use minios::elf::plan::{LoadPlan, MAX_USER_IMAGE_PAGES, USER_GUARD_BOTTOM, USER_STACK_BOTTOM};

const FIRST_HEADER: usize = 64;
const SECOND_HEADER: usize = 120;

fn put_u16(bytes: &mut [u8], offset: usize, value: u16) {
    bytes[offset..offset + 2].copy_from_slice(&value.to_le_bytes());
}

fn put_u32(bytes: &mut [u8], offset: usize, value: u32) {
    bytes[offset..offset + 4].copy_from_slice(&value.to_le_bytes());
}

fn put_u64(bytes: &mut [u8], offset: usize, value: u64) {
    bytes[offset..offset + 8].copy_from_slice(&value.to_le_bytes());
}

fn assert_header_byte_error(offset: usize, value: u8, expected: ElfError) {
    let mut bytes = valid_riscv64_elf();
    bytes[offset] = value;
    assert_eq!(ElfImage::parse(&bytes), Err(expected));
}

fn copy_first_program_header(bytes: &mut [u8], index: usize) {
    let source: [u8; 56] = bytes[64..120].try_into().unwrap();
    let destination = 64 + index * 56;
    bytes[destination..destination + 56].copy_from_slice(&source);
}

fn plan(bytes: &[u8]) -> Result<LoadPlan, ElfError> {
    let image = ElfImage::parse(bytes).unwrap();
    LoadPlan::new(&image)
}

fn assert_plan_error(bytes: &[u8], expected: ElfError) {
    assert!(matches!(plan(bytes), Err(error) if error == expected));
}

fn set_ph_u32(bytes: &mut [u8], header: usize, field: usize, value: u32) {
    bytes[header + field..header + field + 4].copy_from_slice(&value.to_le_bytes());
}

fn set_ph_u64(bytes: &mut [u8], header: usize, field: usize, value: u64) {
    put_u64(bytes, header + field, value);
}

#[test]
fn parses_a_static_riscv64_elf_header() {
    let bytes = valid_riscv64_elf();
    let image = ElfImage::parse(&bytes).unwrap();
    assert_eq!(image.entry().as_u64(), 0x0010_0000);
    assert_eq!(image.program_header_count(), 2);
}

#[test]
fn rejects_bad_magic_byte_zero() {
    assert_header_byte_error(0, 0, ElfError::BadMagic);
}

#[test]
fn rejects_bad_magic_byte_one() {
    assert_header_byte_error(1, 0, ElfError::BadMagic);
}

#[test]
fn rejects_bad_magic_byte_two() {
    assert_header_byte_error(2, 0, ElfError::BadMagic);
}

#[test]
fn rejects_bad_magic_byte_three() {
    assert_header_byte_error(3, 0, ElfError::BadMagic);
}

#[test]
fn rejects_an_elf_header_shorter_than_sixty_four_bytes() {
    let bytes = [0u8; 63];
    assert_eq!(ElfImage::parse(&bytes), Err(ElfError::HeaderSize));
}

#[test]
fn rejects_non_elf64_class() {
    assert_header_byte_error(4, 1, ElfError::UnsupportedClass);
}

#[test]
fn rejects_non_little_endian_data() {
    assert_header_byte_error(5, 2, ElfError::UnsupportedEndian);
}

#[test]
fn rejects_unsupported_ident_version() {
    assert_header_byte_error(6, 2, ElfError::UnsupportedVersion);
}

#[test]
fn rejects_unsupported_header_version() {
    let mut bytes = valid_riscv64_elf();
    put_u32(&mut bytes, 20, 2);
    assert_eq!(ElfImage::parse(&bytes), Err(ElfError::UnsupportedVersion));
}

#[test]
fn rejects_non_executable_type() {
    let mut bytes = valid_riscv64_elf();
    put_u16(&mut bytes, 16, 3);
    assert_eq!(ElfImage::parse(&bytes), Err(ElfError::UnsupportedType));
}

#[test]
fn rejects_non_riscv_machine() {
    let mut bytes = valid_riscv64_elf();
    put_u16(&mut bytes, 18, 62);
    assert_eq!(ElfImage::parse(&bytes), Err(ElfError::UnsupportedMachine));
}

#[test]
fn rejects_wrong_elf_header_size() {
    let mut bytes = valid_riscv64_elf();
    put_u16(&mut bytes, 52, 63);
    assert_eq!(ElfImage::parse(&bytes), Err(ElfError::HeaderSize));
}

#[test]
fn rejects_wrong_program_header_size() {
    let mut bytes = valid_riscv64_elf();
    put_u16(&mut bytes, 54, 55);
    assert_eq!(ElfImage::parse(&bytes), Err(ElfError::ProgramHeaderSize));
}

#[test]
fn rejects_program_header_table_past_the_input() {
    let mut bytes = valid_riscv64_elf();
    let truncated_table_offset = bytes.len() as u64 - 55;
    put_u64(&mut bytes, 32, truncated_table_offset);
    assert_eq!(
        ElfImage::parse(&bytes),
        Err(ElfError::ProgramHeaderTableOutOfBounds)
    );
}

#[test]
fn rejects_program_header_table_arithmetic_overflow() {
    let mut bytes = valid_riscv64_elf();
    put_u64(&mut bytes, 32, u64::MAX);
    assert_eq!(
        ElfImage::parse(&bytes),
        Err(ElfError::ProgramHeaderTableOutOfBounds)
    );
}

#[test]
fn rejects_more_than_eight_empty_load_segments() {
    let mut bytes = valid_riscv64_elf();
    put_u16(&mut bytes, 56, 9);
    for index in 2..9 {
        let destination = 64 + index * 56;
        let source = bytes[64..120].to_vec();
        bytes[destination..destination + 56].copy_from_slice(&source);
    }
    for index in 0..9 {
        put_u64(&mut bytes, 64 + index * 56 + 32, 0);
        put_u64(&mut bytes, 64 + index * 56 + 40, 0);
    }
    assert_eq!(ElfImage::parse(&bytes), Err(ElfError::TooManyLoadSegments));
}

#[test]
fn accepts_exactly_eight_load_segments() {
    let mut bytes = valid_riscv64_elf();
    put_u16(&mut bytes, 56, 8);
    for index in 2..8 {
        copy_first_program_header(&mut bytes, index);
    }
    assert_eq!(ElfImage::parse(&bytes).unwrap().program_header_count(), 8);
}

#[test]
fn does_not_count_non_load_program_headers_toward_the_load_limit() {
    let mut bytes = valid_riscv64_elf();
    put_u16(&mut bytes, 56, 9);
    for index in 2..9 {
        copy_first_program_header(&mut bytes, index);
    }
    for index in 0..9 {
        put_u32(&mut bytes, 64 + index * 56, 0);
    }
    assert_eq!(ElfImage::parse(&bytes).unwrap().program_header_count(), 9);
}

#[test]
fn accepts_a_program_header_table_ending_at_the_input_boundary() {
    let fixture = valid_riscv64_elf();
    let mut bytes = [0u8; 176];
    bytes[..176].copy_from_slice(&fixture[..176]);
    assert_eq!(ElfImage::parse(&bytes).unwrap().program_header_count(), 2);
}

#[test]
fn checked_program_header_iterator_reports_truncation_without_panicking() {
    let bytes = [0u8; 55];
    let mut headers = ProgramHeaders::new(&bytes, 0, 1);
    assert_eq!(
        headers.next(),
        Some(Err(ElfError::ProgramHeaderTableOutOfBounds))
    );
    assert_eq!(headers.next(), None);
}

#[test]
fn checked_program_header_iterator_reports_offset_overflow_without_panicking() {
    let bytes = [0u8; 56];
    let mut headers = ProgramHeaders::new(&bytes, usize::MAX, 1);
    assert_eq!(
        headers.next(),
        Some(Err(ElfError::ProgramHeaderTableOutOfBounds))
    );
    assert_eq!(headers.next(), None);
}

#[test]
fn program_headers_read_both_fixture_segments() {
    let bytes = valid_riscv64_elf();
    let image = ElfImage::parse(&bytes).unwrap();
    let headers = image.program_headers();
    assert_eq!(headers.len(), 2);
    let text = headers[0].unwrap();
    assert!(text.is_load() && text.readable() && text.executable() && !text.writable());
    assert_eq!(text.offset(), 0x1000);
    assert_eq!(text.virtual_address(), 0x0010_0000);
    assert_eq!(text.file_size(), 4);
    assert_eq!(text.memory_size(), 4);
    assert_eq!(text.alignment(), 0x1000);
    let data = headers[1].unwrap();
    assert!(data.readable() && data.writable() && !data.executable());
    assert_eq!(data.memory_size(), 0x1000);
}

#[test]
fn plans_text_data_bss_and_entry() {
    let bytes = valid_riscv64_elf();
    let image = ElfImage::parse(&bytes).unwrap();
    let plan = LoadPlan::new(&image).unwrap();

    assert_eq!(plan.len(), 2);
    assert_eq!(plan.entry().as_u64(), 0x0010_0000);
    assert_eq!(plan.total_user_pages(), 2);
    let text = &plan.segments()[0];
    assert_eq!(text.file_offset(), 0x1000);
    assert_eq!(text.file_len(), 4);
    assert_eq!(text.virtual_start().as_u64(), 0x0010_0000);
    assert_eq!(text.first_page().start().as_u64(), 0x0010_0000);
    assert_eq!(text.page_count(), 1);
    assert_eq!(text.page_offset(), 0);
    assert!(text.flags().read());
    assert!(text.flags().execute());
    assert!(text.flags().user());
    assert_eq!(plan.segments()[1].memory_len(), 0x1000);
}

#[test]
fn accepts_zero_and_one_as_no_alignment_requirement() {
    for alignment in [0, 1] {
        let mut bytes = valid_riscv64_elf();
        set_ph_u64(&mut bytes, FIRST_HEADER, 48, alignment);
        assert!(plan(&bytes).is_ok());
    }
}

#[test]
fn rejects_files_larger_than_memory() {
    let mut bytes = valid_riscv64_elf();
    set_ph_u64(&mut bytes, FIRST_HEADER, 32, 5);
    assert_plan_error(&bytes, ElfError::FilesLargerThanMemory);
}

#[test]
fn rejects_non_power_of_two_alignment() {
    let mut bytes = valid_riscv64_elf();
    set_ph_u64(&mut bytes, FIRST_HEADER, 48, 3);
    assert_plan_error(&bytes, ElfError::InvalidAlignment);
}

#[test]
fn rejects_incongruent_virtual_address_and_file_offset() {
    let mut bytes = valid_riscv64_elf();
    set_ph_u64(&mut bytes, FIRST_HEADER, 16, 0x0010_0004);
    assert_plan_error(&bytes, ElfError::IncongruentAddressAndOffset);
}

#[test]
fn rejects_file_range_arithmetic_overflow() {
    let mut bytes = valid_riscv64_elf();
    set_ph_u64(&mut bytes, FIRST_HEADER, 8, u64::MAX);
    set_ph_u64(&mut bytes, FIRST_HEADER, 48, 1);
    assert_plan_error(&bytes, ElfError::RangeOverflow);
}

#[test]
fn rejects_file_range_past_the_input() {
    let mut bytes = valid_riscv64_elf();
    let final_byte = bytes.len() as u64 - 1;
    set_ph_u64(&mut bytes, FIRST_HEADER, 8, final_byte);
    set_ph_u64(&mut bytes, FIRST_HEADER, 48, 1);
    assert_plan_error(&bytes, ElfError::RangeOverflow);
}

#[test]
fn rejects_memory_range_arithmetic_overflow() {
    let mut bytes = valid_riscv64_elf();
    set_ph_u64(&mut bytes, FIRST_HEADER, 16, 0xffff_ffff_ffff_f000);
    set_ph_u64(&mut bytes, FIRST_HEADER, 40, 0x2000);
    assert_plan_error(&bytes, ElfError::RangeOverflow);
}

#[test]
fn rejects_noncanonical_segment_address() {
    let mut bytes = valid_riscv64_elf();
    set_ph_u64(&mut bytes, FIRST_HEADER, 16, 0x0000_0040_0000_0000);
    set_ph_u64(&mut bytes, FIRST_HEADER, 48, 1);
    assert_plan_error(&bytes, ElfError::RangeOverflow);
}

#[test]
fn rejects_segments_below_the_user_range() {
    let mut bytes = valid_riscv64_elf();
    set_ph_u64(&mut bytes, FIRST_HEADER, 16, 0x000f_f000);
    assert_plan_error(&bytes, ElfError::OutsideUserRange);
}

#[test]
fn rejects_page_rounded_segment_overlap() {
    let mut bytes = valid_riscv64_elf();
    set_ph_u64(&mut bytes, SECOND_HEADER, 16, 0x0010_0800);
    set_ph_u64(&mut bytes, SECOND_HEADER, 48, 1);
    assert_plan_error(&bytes, ElfError::PageOverlap);
}

#[test]
fn rejects_writable_executable_segments() {
    let mut bytes = valid_riscv64_elf();
    set_ph_u32(&mut bytes, SECOND_HEADER, 4, 7);
    assert_plan_error(&bytes, ElfError::WritableExecutable);
}

#[test]
fn rejects_write_only_segments_before_pte_construction() {
    let mut bytes = valid_riscv64_elf();
    set_ph_u32(&mut bytes, SECOND_HEADER, 4, 2);
    assert_plan_error(&bytes, ElfError::InvalidPermissions);
}

#[test]
fn rejects_segments_without_leaf_permissions() {
    let mut bytes = valid_riscv64_elf();
    set_ph_u32(&mut bytes, SECOND_HEADER, 4, 0);
    assert_plan_error(&bytes, ElfError::InvalidPermissions);
}

#[test]
fn rejects_guard_page_collision() {
    let mut bytes = valid_riscv64_elf();
    set_ph_u64(&mut bytes, SECOND_HEADER, 16, USER_GUARD_BOTTOM);
    assert_plan_error(&bytes, ElfError::StackCollision);
}

#[test]
fn rejects_user_stack_collision() {
    let mut bytes = valid_riscv64_elf();
    set_ph_u64(&mut bytes, SECOND_HEADER, 16, USER_STACK_BOTTOM);
    assert_plan_error(&bytes, ElfError::StackCollision);
}

#[test]
fn accepts_exactly_the_user_image_page_limit() {
    let mut bytes = valid_riscv64_elf();
    set_ph_u64(
        &mut bytes,
        SECOND_HEADER,
        40,
        (MAX_USER_IMAGE_PAGES as u64 - 1) * 4096,
    );
    assert_eq!(
        plan(&bytes).unwrap().total_user_pages(),
        MAX_USER_IMAGE_PAGES
    );
}

#[test]
fn rejects_more_than_the_user_image_page_limit() {
    let mut bytes = valid_riscv64_elf();
    set_ph_u64(
        &mut bytes,
        SECOND_HEADER,
        40,
        MAX_USER_IMAGE_PAGES as u64 * 4096,
    );
    assert_plan_error(&bytes, ElfError::ImagePageLimitExceeded);
}

#[test]
fn accepts_entry_inside_executable_memory_beyond_file_bytes() {
    let mut bytes = valid_riscv64_elf();
    set_ph_u64(&mut bytes, FIRST_HEADER, 40, 0x1000);
    put_u64(&mut bytes, 24, 0x0010_0800);
    assert_eq!(plan(&bytes).unwrap().entry().as_u64(), 0x0010_0800);
}

#[test]
fn rejects_entry_in_non_executable_segment() {
    let mut bytes = valid_riscv64_elf();
    put_u64(&mut bytes, 24, 0x0020_0000);
    assert_plan_error(&bytes, ElfError::EntryNotExecutable);
}

#[test]
fn rejects_entry_at_executable_memory_end() {
    let mut bytes = valid_riscv64_elf();
    put_u64(&mut bytes, 24, 0x0010_0004);
    assert_plan_error(&bytes, ElfError::EntryNotExecutable);
}

/// The fixture with its data segment moved to straddle a page boundary:
/// 0x20 file bytes at 0x0020_0ff0 in 0x30 bytes of memory.
fn straddling_elf() -> Vec<u8> {
    let mut bytes = valid_riscv64_elf().to_vec();
    bytes.resize(0x3010, 0);
    set_ph_u64(&mut bytes, SECOND_HEADER, 8, 0x2ff0);
    set_ph_u64(&mut bytes, SECOND_HEADER, 16, 0x0020_0ff0);
    set_ph_u64(&mut bytes, SECOND_HEADER, 32, 0x20);
    set_ph_u64(&mut bytes, SECOND_HEADER, 40, 0x30);
    bytes
}

#[test]
fn page_copy_places_the_file_bytes_at_their_addresses() {
    let bytes = straddling_elf();
    let planned = plan(&bytes).unwrap();
    let text = &planned.segments()[0];
    let copy = text.page_copy(0).unwrap();
    assert_eq!(copy.page_start, 0x0010_0000);
    assert_eq!(copy.destination_offset, 0);
    assert_eq!(copy.source_start, 0x1000);
    assert_eq!(copy.len, 4);

    let data = &planned.segments()[1];
    assert_eq!(data.page_count(), 2);
    let first = data.page_copy(0).unwrap();
    assert_eq!(first.page_start, 0x0020_0000);
    assert_eq!(first.destination_offset, 0xff0);
    assert_eq!(first.source_start, 0x2ff0);
    assert_eq!(first.len, 0x10);
    let second = data.page_copy(1).unwrap();
    assert_eq!(second.page_start, 0x0020_1000);
    assert_eq!(second.destination_offset, 0);
    assert_eq!(second.source_start, 0x3000);
    assert_eq!(second.len, 0x10);
}

#[test]
fn page_copy_skips_pages_of_zero_fill_only() {
    let bytes = valid_riscv64_elf();
    let small = plan(&bytes).unwrap();
    let data = &small.segments()[1];
    assert_eq!(data.page_count(), 1);
    assert!(data.page_copy(0).is_some());

    let mut bss = straddling_elf();
    set_ph_u64(&mut bss, SECOND_HEADER, 32, 0x8);
    set_ph_u64(&mut bss, SECOND_HEADER, 40, 0x100);
    let straddling = plan(&bss).unwrap();
    let data = &straddling.segments()[1];
    assert_eq!(data.page_count(), 2);
    assert_eq!(data.page_copy(0).unwrap().len, 0x8);
    assert!(data.page_copy(1).is_none());
}
