use minios::fdt::{FdtError, MachineSpec, FDT_RESERVED_LEN};

struct Prop {
    name: &'static str,
    value: Vec<u8>,
}

struct Node {
    name: &'static str,
    props: Vec<Prop>,
    children: Vec<Node>,
}

fn prop(name: &'static str, value: Vec<u8>) -> Prop {
    Prop { name, value }
}

fn be32(value: u32) -> Vec<u8> {
    value.to_be_bytes().to_vec()
}

fn push_cells(value: &mut Vec<u8>, cells: u32, number: u64) {
    if cells == 2 {
        value.extend_from_slice(&((number >> 32) as u32).to_be_bytes());
    }
    value.extend_from_slice(&(number as u32).to_be_bytes());
}

fn reg(cells: (u32, u32), address: u64, size: u64) -> Vec<u8> {
    let mut value = Vec::new();
    push_cells(&mut value, cells.0, address);
    push_cells(&mut value, cells.1, size);
    value
}

fn qemu_virt_dtb() -> Vec<u8> {
    qemu_virt_dtb_with(true, true)
}

fn qemu_virt_dtb_with(with_timebase: bool, with_uart: bool) -> Vec<u8> {
    let mut cpus_props = vec![prop("#address-cells", be32(1)), prop("#size-cells", be32(0))];
    if with_timebase {
        cpus_props.push(prop("timebase-frequency", be32(10_000_000)));
    }
    let mut soc_children = vec![];
    soc_children.push(Node {
        name: "virtio_mmio@10001000",
        props: vec![
            prop("reg", reg((2, 2), 0x1000_1000, 0x1000)),
            prop("compatible", b"virtio,mmio\0".to_vec()),
        ],
        children: vec![],
    });
    if with_uart {
        soc_children.push(Node {
            name: "serial@10000000",
            props: vec![
                prop("reg", reg((2, 2), 0x1000_0000, 0x100)),
                prop("compatible", b"ns16550a\0".to_vec()),
            ],
            children: vec![],
        });
    }
    build_dtb(&Node {
        name: "",
        props: vec![
            prop("#address-cells", be32(2)),
            prop("#size-cells", be32(2)),
            prop("compatible", b"riscv-virtio\0".to_vec()),
        ],
        children: vec![
            Node {
                name: "memory@80000000",
                props: vec![
                    prop("device_type", b"memory\0".to_vec()),
                    prop("reg", reg((2, 2), 0x8000_0000, 0x0800_0000)),
                ],
                children: vec![],
            },
            Node {
                name: "cpus",
                props: cpus_props,
                children: vec![Node {
                    name: "cpu@0",
                    props: vec![prop("device_type", b"cpu\0".to_vec())],
                    children: vec![],
                }],
            },
            Node {
                name: "soc",
                props: vec![
                    prop("#address-cells", be32(2)),
                    prop("#size-cells", be32(2)),
                    prop("compatible", b"simple-bus\0".to_vec()),
                ],
                children: soc_children,
            },
        ],
    })
}

const TOKEN_BEGIN_NODE: u32 = 1;
const TOKEN_END_NODE: u32 = 2;
const TOKEN_PROP: u32 = 3;
const TOKEN_END: u32 = 9;

fn string_offset(
    name: &'static str,
    strings: &mut Vec<u8>,
    offsets: &mut Vec<(&'static str, u32)>,
) -> u32 {
    if let Some((_, offset)) = offsets.iter().find(|(seen, _)| *seen == name) {
        return *offset;
    }
    let offset = strings.len() as u32;
    strings.extend_from_slice(name.as_bytes());
    strings.push(0);
    offsets.push((name, offset));
    offset
}

fn emit(
    node: &Node,
    structure: &mut Vec<u8>,
    strings: &mut Vec<u8>,
    offsets: &mut Vec<(&'static str, u32)>,
) {
    structure.extend_from_slice(&TOKEN_BEGIN_NODE.to_be_bytes());
    structure.extend_from_slice(node.name.as_bytes());
    structure.push(0);
    while structure.len() % 4 != 0 {
        structure.push(0);
    }
    for entry in &node.props {
        structure.extend_from_slice(&TOKEN_PROP.to_be_bytes());
        structure.extend_from_slice(&(entry.value.len() as u32).to_be_bytes());
        let offset = string_offset(entry.name, strings, offsets);
        structure.extend_from_slice(&offset.to_be_bytes());
        structure.extend_from_slice(&entry.value);
        while structure.len() % 4 != 0 {
            structure.push(0);
        }
    }
    for child in &node.children {
        emit(child, structure, strings, offsets);
    }
    structure.extend_from_slice(&TOKEN_END_NODE.to_be_bytes());
}

fn build_dtb(root: &Node) -> Vec<u8> {
    let mut strings: Vec<u8> = Vec::new();
    let mut offsets: Vec<(&'static str, u32)> = Vec::new();
    let mut structure: Vec<u8> = Vec::new();

    emit(root, &mut structure, &mut strings, &mut offsets);
    structure.extend_from_slice(&TOKEN_END.to_be_bytes());

    let header_len = 40;
    let reserve_len = 16;
    let off_struct = header_len + reserve_len;
    let off_strings = off_struct + structure.len();
    let total = off_strings + strings.len();

    let mut dtb = Vec::with_capacity(total);
    for value in [
        0xd00d_feed,
        total as u32,
        off_struct as u32,
        off_strings as u32,
        header_len as u32,
        17,
        16,
        0,
        strings.len() as u32,
        structure.len() as u32,
    ] {
        dtb.extend_from_slice(&value.to_be_bytes());
    }
    dtb.extend_from_slice(&[0; 16]);
    dtb.extend_from_slice(&structure);
    dtb.extend_from_slice(&strings);
    dtb
}

#[test]
fn parses_the_qemu_virt_machine_spec() {
    let spec = MachineSpec::from_dtb(&qemu_virt_dtb()).unwrap();

    assert_eq!(spec.ram, 0x8000_0000..0x8800_0000);
    assert_eq!(spec.uart_base, 0x1000_0000);
    assert_eq!(spec.timebase_hz, 10_000_000);
    assert_eq!(spec.virtio_mmio[..spec.virtio_mmio_count], [0x1000_1000]);
}

#[test]
fn rejects_a_bad_magic() {
    let mut dtb = qemu_virt_dtb();
    dtb[0] = 0xff;
    assert_eq!(MachineSpec::from_dtb(&dtb), Err(FdtError::BadMagic));
}

#[test]
fn rejects_a_truncated_blob() {
    let dtb = qemu_virt_dtb();
    let cut = &dtb[..dtb.len() - 200];
    assert_eq!(MachineSpec::from_dtb(cut), Err(FdtError::Truncated));
}

#[test]
fn rejects_a_dtb_without_the_required_nodes() {
    assert_eq!(
        MachineSpec::from_dtb(&qemu_virt_dtb_with(false, true)),
        Err(FdtError::MissingTimebase)
    );
    assert_eq!(
        MachineSpec::from_dtb(&qemu_virt_dtb_with(true, false)),
        Err(FdtError::MissingUart)
    );
}

#[test]
fn rejects_a_dtb_without_memory() {
    let dtb = build_dtb(&Node {
        name: "",
        props: vec![prop("#address-cells", be32(2)), prop("#size-cells", be32(2))],
        children: vec![Node {
            name: "cpus",
            props: vec![prop("timebase-frequency", be32(10_000_000))],
            children: vec![],
        }],
    });
    assert_eq!(MachineSpec::from_dtb(&dtb), Err(FdtError::MissingMemory));
}

#[test]
fn rejects_a_ram_too_small_for_the_mini_os_layout() {
    let mut dtb = qemu_virt_dtb();
    let needle = 0x0800_0000_u32.to_be_bytes();
    let index = dtb.windows(4).position(|window| window == needle).unwrap();
    dtb[index..index + 4].copy_from_slice(&0x0010_0000_u32.to_be_bytes());
    assert_eq!(
        MachineSpec::from_dtb(&dtb),
        Err(FdtError::UnsupportedMachine)
    );
}

#[test]
fn rejects_an_unterminated_structure_block() {
    let mut dtb = qemu_virt_dtb();
    let end_offset = u32::from_be_bytes(dtb[8..12].try_into().unwrap()) as usize
        + u32::from_be_bytes(dtb[36..40].try_into().unwrap()) as usize
        - 4;
    dtb[end_offset..end_offset + 4].copy_from_slice(&4_u32.to_be_bytes());
    assert_eq!(MachineSpec::from_dtb(&dtb), Err(FdtError::BadStructure));
}

#[test]
fn rejects_an_old_format_version() {
    let mut dtb = qemu_virt_dtb();
    dtb[20..24].copy_from_slice(&3_u32.to_be_bytes());
    assert_eq!(
        MachineSpec::from_dtb(&dtb),
        Err(FdtError::UnsupportedVersion)
    );
}

// The FDT reservation is the top 2 MiB of RAM and the payload window the
// `BUNDLE_MAX_LEN` (8 MiB) right below it. On the 128 MiB QEMU machine that
// window is 0x8760_0000..0x87e0_0000 and managed memory ends at 0x8760_0000;
// a window starting at 0x8780_0000 and ending at the reservation would hold
// only 6 MiB, against the length this test also requires.
#[test]
fn derived_layout_keeps_the_fdt_reserve_clear_of_the_payload() {
    let spec = MachineSpec::from_dtb(&qemu_virt_dtb()).unwrap();
    assert_eq!(spec.managed_end(), 0x8760_0000);
    assert_eq!(spec.payload_window(), 0x8760_0000..0x87e0_0000);
    assert_eq!(spec.fdt_region(), 0x87e0_0000..0x8800_0000);
    assert_eq!(
        spec.payload_window().len() as u64,
        minios::abi::boot::BUNDLE_MAX_LEN
    );
    assert_eq!(spec.fdt_region().len(), FDT_RESERVED_LEN);
}
