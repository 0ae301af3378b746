use minios::fdt::{FdtError, MachineSpec};
use minios::machine::{
    LayoutPlanError, align_up_to_page, check_dtb_address, declared_len, dtb_read_len, plan_memory,
};

fn qemu_virt_128m() -> MachineSpec {
    MachineSpec {
        ram: 0x8000_0000..0x8800_0000,
        uart_base: 0x1000_0000,
        timebase_hz: 10_000_000,
        virtio_mmio: [0; 8],
        virtio_mmio_count: 0,
    }
}

fn dtb_header(total_len: u32) -> Vec<u8> {
    let mut header = vec![0u8; 40];
    header[0..4].copy_from_slice(&0xd00d_feedu32.to_be_bytes());
    header[4..8].copy_from_slice(&total_len.to_be_bytes());
    header
}

#[test]
fn dtb_address_must_be_set_and_aligned() {
    assert_eq!(check_dtb_address(0), Err(FdtError::BadStructure));
    assert_eq!(check_dtb_address(0x87e0_0004), Err(FdtError::BadStructure));
    assert_eq!(check_dtb_address(0x87e0_0000), Ok(()));
}

#[test]
fn dtb_header_declares_its_length() {
    assert_eq!(declared_len(&dtb_header(0x1234)), Ok(0x1234));
    assert_eq!(declared_len(&dtb_header(0x1234)[..39]), Err(FdtError::BadMagic));
    let mut wrong = dtb_header(0x1234);
    wrong[0] = 0;
    assert_eq!(declared_len(&wrong), Err(FdtError::BadMagic));
}

#[test]
fn dtb_must_fit_its_reservation() {
    assert_eq!(dtb_read_len(&dtb_header(0x20_0000)), Ok(0x20_0000));
    assert_eq!(dtb_read_len(&dtb_header(0x20_0001)), Err(FdtError::Truncated));
}

#[test]
fn align_up_to_page_rounds_up() {
    assert_eq!(align_up_to_page(0x8021_5000), 0x8021_5000);
    assert_eq!(align_up_to_page(0x8021_5001), 0x8021_6000);
    assert_eq!(align_up_to_page(0), 0);
}

#[test]
fn memory_plan_cuts_ram_from_the_top() {
    let plan = plan_memory(&qemu_virt_128m(), 0x8030_0000).unwrap();
    assert_eq!(plan.fdt, 0x87e0_0000..0x8800_0000);
    assert_eq!(plan.payload, 0x8760_0000..0x87e0_0000);
    assert_eq!(plan.heap, 0x8750_0000..0x8760_0000);
    assert_eq!(plan.frames, 0x8030_0000..0x8750_0000);
}

#[test]
fn memory_plan_refuses_a_kernel_outside_ram() {
    assert_eq!(
        plan_memory(&qemu_virt_128m(), 0x7000_0000),
        Err(LayoutPlanError::KernelOutsideRam)
    );
    assert_eq!(
        plan_memory(&qemu_virt_128m(), 0x8760_0000),
        Err(LayoutPlanError::KernelOutsideRam)
    );
}

#[test]
fn memory_plan_refuses_ram_too_small_for_the_heap() {
    assert_eq!(
        plan_memory(&qemu_virt_128m(), 0x8750_0000),
        Err(LayoutPlanError::HeapDoesNotFit)
    );
}
