//! Reading the Flattened Device Tree (FDT/DTB) that OpenSBI hands over.
//!
//! QEMU `virt` places the FDT 2 MiB below the top of DRAM on a 2 MiB
//! boundary, so MiniOS reserves the last 2 MiB of RAM and puts the boot
//! payload window right below it. The parser only reads a byte slice.

use vstd::prelude::*;
use vstd::utf8::valid_utf8;
use crate::abi::boot::BUNDLE_MAX_LEN;
use crate::bytes::{be32, has_prefix, range_eq, read_be32};
use crate::text::str_from_utf8;

verus! {

/// The reserved length at the top of DRAM where QEMU puts the FDT.
pub const FDT_RESERVED_LEN: usize = 2097152;

/// The number of virtio-mmio transport slots QEMU virt provides.
pub const VIRTIO_MMIO_MAX: usize = 8;

pub const FDT_MAGIC: u32 = 0xd00d_feed;

pub const FDT_BEGIN_NODE: u32 = 1;

pub const FDT_END_NODE: u32 = 2;

pub const FDT_PROP: u32 = 3;

pub const FDT_NOP: u32 = 4;

pub const FDT_END: u32 = 9;

/// The node nesting that the walk follows; QEMU `virt` needs depth 4.
pub const MAX_DEPTH: usize = 8;

/// The longest node or property name read.
pub const MAX_NAME: usize = 64;

pub const HEADER_LEN: usize = 40;

/// The machine description taken from a DTB.
#[derive(Debug, PartialEq, Eq)]
pub struct MachineSpec {
    /// All physical RAM, from the first `reg` entry of `/memory`.
    pub ram: core::ops::Range<usize>,
    /// The `reg` base of the first `ns16550a`/`ns16550` compatible node.
    pub uart_base: usize,
    /// `timebase-frequency` of `/cpus`.
    pub timebase_hz: u64,
    /// The `reg` bases of the `virtio,mmio` nodes, in the order found.
    pub virtio_mmio: [usize; 8],
    /// How many entries of `virtio_mmio` are valid.
    pub virtio_mmio_count: usize,
}

#[derive(Debug, Clone, Copy, PartialEq, Eq, Structural)]
pub enum FdtError {
    BadMagic,
    Truncated,
    UnsupportedVersion,
    BadStructure,
    MissingMemory,
    MissingUart,
    MissingTimebase,
    /// The DTB is readable but its RAM does not fit the MiniOS layout.
    UnsupportedMachine,
}

/// What the walk has learned about one open node. Its `reg` is decoded with
/// the cells of its parent.
#[derive(Debug, Clone, Copy, PartialEq, Eq)]
pub struct NodeScan {
    pub name_is_memory: bool,
    pub name_is_cpus: bool,
    pub device_is_memory: bool,
    pub has_ns16550: bool,
    pub is_virtio_mmio: bool,
    pub reg_cells: (u32, u32),
    pub reg_first: Option<(u64, u64)>,
    pub timebase: Option<u32>,
}

pub open spec fn blank_scan(reg_cells: (u32, u32)) -> NodeScan {
    NodeScan {
        name_is_memory: false,
        name_is_cpus: false,
        device_is_memory: false,
        has_ns16550: false,
        is_virtio_mmio: false,
        reg_cells,
        reg_first: None,
        timebase: None,
    }
}

/// The state of the structure walk.
pub struct WalkState {
    pub depth: int,
    /// `cells[d]` are the cells that the open node at depth `d` gives its children.
    pub cells: Seq<(u32, u32)>,
    pub scans: Seq<Option<NodeScan>>,
    pub ram: Option<(u64, u64)>,
    pub uart: Option<u64>,
    pub timebase: Option<u32>,
    pub virtio: Seq<usize>,
}

pub open spec fn initial_walk_state() -> WalkState {
    WalkState {
        depth: 0,
        cells: Seq::new(MAX_DEPTH as nat, |i: int| (2u32, 2u32)),
        scans: Seq::new(MAX_DEPTH as nat, |i: int| None),
        ram: None,
        uart: None,
        timebase: None,
        virtio: Seq::empty(),
    }
}

/// The outcome of one token of the structure block.
pub enum WalkStep {
    Next(int, WalkState),
    Finished(WalkState),
    Failed(FdtError),
}

/// `x` rounded up to a multiple of four.
pub open spec fn round4(x: int) -> int {
    x + (4 - x % 4) % 4
}

/// The index of the first zero byte of `s` at or after `from`.
pub open spec fn first_zero(s: Seq<u8>, from: int) -> Option<int>
    decreases s.len() - from,
{
    if from < 0 || from >= s.len() {
        None
    } else if s[from] == 0 {
        Some(from)
    } else {
        first_zero(s, from + 1)
    }
}

/// `target`, which holds no zero byte, is one of the zero-separated entries of `v`.
pub open spec fn has_entry(v: Seq<u8>, target: Seq<u8>) -> bool {
    exists|i: int|
        #![trigger v.subrange(i, i + target.len())]
        0 <= i && i + target.len() <= v.len() && v.subrange(i, i + target.len()) == target && (i == 0
            || v[i - 1] == 0) && (i + target.len() == v.len() || v[i + target.len()] == 0)
}

pub open spec fn name_memory() -> Seq<u8> {
    seq![0x6du8, 0x65, 0x6d, 0x6f, 0x72, 0x79]
}

pub open spec fn name_cpus() -> Seq<u8> {
    seq![0x63u8, 0x70, 0x75, 0x73]
}

pub open spec fn name_address_cells() -> Seq<u8> {
    seq![0x23u8, 0x61, 0x64, 0x64, 0x72, 0x65, 0x73, 0x73, 0x2d, 0x63, 0x65, 0x6c, 0x6c, 0x73]
}

pub open spec fn name_size_cells() -> Seq<u8> {
    seq![0x23u8, 0x73, 0x69, 0x7a, 0x65, 0x2d, 0x63, 0x65, 0x6c, 0x6c, 0x73]
}

pub open spec fn name_reg() -> Seq<u8> {
    seq![0x72u8, 0x65, 0x67]
}

pub open spec fn name_device_type() -> Seq<u8> {
    seq![0x64u8, 0x65, 0x76, 0x69, 0x63, 0x65, 0x5f, 0x74, 0x79, 0x70, 0x65]
}

pub open spec fn name_compatible() -> Seq<u8> {
    seq![0x63u8, 0x6f, 0x6d, 0x70, 0x61, 0x74, 0x69, 0x62, 0x6c, 0x65]
}

pub open spec fn name_timebase() -> Seq<u8> {
    seq![
        0x74u8, 0x69, 0x6d, 0x65, 0x62, 0x61, 0x73, 0x65, 0x2d, 0x66, 0x72, 0x65, 0x71, 0x75, 0x65,
        0x6e, 0x63, 0x79,
    ]
}

pub open spec fn compat_ns16550a() -> Seq<u8> {
    seq![0x6eu8, 0x73, 0x31, 0x36, 0x35, 0x35, 0x30, 0x61]
}

pub open spec fn compat_ns16550() -> Seq<u8> {
    seq![0x6eu8, 0x73, 0x31, 0x36, 0x35, 0x35, 0x30]
}

pub open spec fn compat_virtio_mmio() -> Seq<u8> {
    seq![0x76u8, 0x69, 0x72, 0x74, 0x69, 0x6f, 0x2c, 0x6d, 0x6d, 0x69, 0x6f]
}

/// The zero-terminated property name at `offset` of the strings block.
pub open spec fn prop_name_spec(strings: Seq<u8>, offset: int) -> Result<Seq<u8>, FdtError> {
    if offset > strings.len() {
        Err(FdtError::BadStructure)
    } else {
        match first_zero(strings, offset) {
            None => Err(FdtError::BadStructure),
            Some(end) => if end - offset > MAX_NAME {
                Err(FdtError::BadStructure)
            } else if !valid_utf8(strings.subrange(offset, end)) {
                Err(FdtError::BadStructure)
            } else {
                Ok(strings.subrange(offset, end))
            },
        }
    }
}

/// One cell group of a `reg` value at `at`: absent for 0 cells, one or two
/// big-endian words, anything else refused. Returns the value and the next offset.
pub open spec fn reg_cell(v: Seq<u8>, at: int, cells: u32) -> Option<(u64, int)> {
    if cells == 0 {
        Some((0, at))
    } else if cells == 1 {
        if at + 4 > v.len() {
            None
        } else {
            Some((be32(v, at) as u64, at + 4))
        }
    } else if cells == 2 {
        if at + 8 > v.len() {
            None
        } else {
            Some(((be32(v, at) * 0x1_0000_0000 + be32(v, at + 4)) as u64, at + 8))
        }
    } else {
        None
    }
}

/// The address and size of the first entry of a `reg` value.
pub open spec fn reg_spec(v: Seq<u8>, cells: (u32, u32)) -> Result<(u64, u64), FdtError> {
    match reg_cell(v, 0, cells.0) {
        None => Err(FdtError::BadStructure),
        Some(a) => match reg_cell(v, a.1, cells.1) {
            None => Err(FdtError::BadStructure),
            Some(b) => Ok((a.0, b.0)),
        },
    }
}

pub open spec fn begin_step(s: Seq<u8>, c: int, st: WalkState) -> WalkStep {
    if st.depth >= MAX_DEPTH {
        WalkStep::Failed(FdtError::BadStructure)
    } else {
        match first_zero(s, c) {
            None => WalkStep::Failed(FdtError::BadStructure),
            Some(end) => if end - c > MAX_NAME || !valid_utf8(s.subrange(c, end)) {
                WalkStep::Failed(FdtError::BadStructure)
            } else {
                let name = s.subrange(c, end);
                let parent = if st.depth == 0 {
                    (2u32, 2u32)
                } else {
                    st.cells[st.depth - 1]
                };
                let scan = NodeScan {
                    name_is_memory: has_prefix(name, name_memory()),
                    name_is_cpus: name == name_cpus(),
                    ..blank_scan(parent)
                };
                WalkStep::Next(
                    round4(end + 1),
                    WalkState {
                        depth: st.depth + 1,
                        cells: st.cells.update(st.depth, (2u32, 2u32)),
                        scans: st.scans.update(st.depth, Some(scan)),
                        ..st
                    },
                )
            },
        }
    }
}

/// The state after closing a non-root node whose findings are `scan`.
pub open spec fn close_node(scan: NodeScan, st: WalkState) -> WalkState {
    let ram = if scan.name_is_memory && scan.device_is_memory && st.ram is None {
        scan.reg_first
    } else {
        st.ram
    };
    let timebase = if scan.name_is_cpus && scan.timebase is Some {
        scan.timebase
    } else {
        st.timebase
    };
    let uart = if scan.has_ns16550 && st.uart is None {
        match scan.reg_first {
            Some(r) => Some(r.0),
            None => None,
        }
    } else {
        st.uart
    };
    let base: u64 = match scan.reg_first {
        Some(r) => r.0,
        None => 0,
    };
    let virtio = if scan.is_virtio_mmio && st.virtio.len() < VIRTIO_MMIO_MAX && scan.reg_first is Some
        && base <= usize::MAX {
        st.virtio.push(base as usize)
    } else {
        st.virtio
    };
    WalkState { ram, timebase, uart, virtio, ..st }
}

pub open spec fn end_step(c: int, st: WalkState) -> WalkStep {
    if st.depth == 0 {
        WalkStep::Failed(FdtError::BadStructure)
    } else {
        let d = st.depth - 1;
        let scan = match st.scans[d] {
            Some(scan) => scan,
            None => blank_scan((0, 0)),
        };
        let closed = WalkState { depth: d, scans: st.scans.update(d, None), ..st };
        if d == 0 {
            WalkStep::Next(c, closed)
        } else {
            WalkStep::Next(c, close_node(scan, closed))
        }
    }
}

/// What a property named `name` with value `v` does to the scan of its node
/// and to the cells its node gives its children.
pub open spec fn apply_prop(name: Seq<u8>, v: Seq<u8>, d: int, scan: NodeScan, st: WalkState) -> Result<
    WalkState,
    FdtError,
> {
    if name == name_address_cells() {
        if v.len() < 4 {
            Err(FdtError::Truncated)
        } else {
            Ok(WalkState { cells: st.cells.update(d, (be32(v, 0) as u32, st.cells[d].1)), ..st })
        }
    } else if name == name_size_cells() {
        if v.len() < 4 {
            Err(FdtError::Truncated)
        } else {
            Ok(WalkState { cells: st.cells.update(d, (st.cells[d].0, be32(v, 0) as u32)), ..st })
        }
    } else if name == name_reg() {
        match reg_spec(v, scan.reg_cells) {
            Err(e) => Err(e),
            Ok(r) => Ok(
                WalkState { scans: st.scans.update(d, Some(NodeScan { reg_first: Some(r), ..scan })), ..st },
            ),
        }
    } else if name == name_device_type() {
        let memory = v == name_memory() || v == name_memory().push(0);
        Ok(
            WalkState {
                scans: st.scans.update(d, Some(NodeScan { device_is_memory: memory, ..scan })),
                ..st
            },
        )
    } else if name == name_compatible() {
        let ns = has_entry(v, compat_ns16550a()) || has_entry(v, compat_ns16550());
        let virtio = has_entry(v, compat_virtio_mmio());
        Ok(
            WalkState {
                scans: st.scans.update(
                    d,
                    Some(NodeScan { has_ns16550: ns, is_virtio_mmio: virtio, ..scan }),
                ),
                ..st
            },
        )
    } else if name == name_timebase() {
        if v.len() < 4 {
            Err(FdtError::Truncated)
        } else {
            Ok(
                WalkState {
                    scans: st.scans.update(
                        d,
                        Some(NodeScan { timebase: Some(be32(v, 0) as u32), ..scan }),
                    ),
                    ..st
                },
            )
        }
    } else {
        Ok(st)
    }
}

pub open spec fn prop_step(s: Seq<u8>, strings: Seq<u8>, c: int, st: WalkState) -> WalkStep {
    if st.depth == 0 {
        WalkStep::Failed(FdtError::BadStructure)
    } else if c + 8 > s.len() {
        WalkStep::Failed(FdtError::Truncated)
    } else {
        let len = be32(s, c);
        let value_start = c + 8;
        if value_start + len > s.len() {
            WalkStep::Failed(FdtError::BadStructure)
        } else {
            let v = s.subrange(value_start, value_start + len);
            match prop_name_spec(strings, be32(s, c + 4)) {
                Err(e) => WalkStep::Failed(e),
                Ok(name) => match st.scans[st.depth - 1] {
                    None => WalkStep::Failed(FdtError::BadStructure),
                    Some(scan) => match apply_prop(name, v, st.depth - 1, scan, st) {
                        Err(e) => WalkStep::Failed(e),
                        Ok(next) => WalkStep::Next(round4(value_start + len), next),
                    },
                },
            }
        }
    }
}

/// What the token at `c` of the structure block does.
pub open spec fn walk_step(s: Seq<u8>, strings: Seq<u8>, c: int, st: WalkState) -> WalkStep {
    if c < 0 || c + 4 > s.len() {
        WalkStep::Failed(FdtError::BadStructure)
    } else {
        let token = be32(s, c);
        if token == FDT_BEGIN_NODE {
            begin_step(s, c + 4, st)
        } else if token == FDT_END_NODE {
            end_step(c + 4, st)
        } else if token == FDT_PROP {
            prop_step(s, strings, c + 4, st)
        } else if token == FDT_NOP {
            WalkStep::Next(c + 4, st)
        } else if token == FDT_END {
            if st.depth != 0 {
                WalkStep::Failed(FdtError::BadStructure)
            } else {
                WalkStep::Finished(st)
            }
        } else {
            WalkStep::Failed(FdtError::BadStructure)
        }
    }
}

pub proof fn lemma_first_zero_bounds(s: Seq<u8>, from: int)
    ensures
        first_zero(s, from) matches Some(e) ==> from <= e < s.len() && s[e] == 0 && forall|k: int|
            from <= k < e ==> s[k] != 0,
        first_zero(s, from) is None && 0 <= from ==> forall|k: int| from <= k < s.len() ==> s[k] != 0,
    decreases s.len() - from,
{
    if 0 <= from < s.len() && s[from] != 0 {
        lemma_first_zero_bounds(s, from + 1);
    }
}

pub proof fn lemma_walk_step_advances(s: Seq<u8>, strings: Seq<u8>, c: int, st: WalkState)
    ensures
        walk_step(s, strings, c, st) matches WalkStep::Next(n, _) ==> 0 <= c && c + 4 <= n
            <= s.len() + 3,
{
    if 0 <= c && c + 4 <= s.len() && be32(s, c) == FDT_BEGIN_NODE {
        lemma_first_zero_bounds(s, c + 4);
    }
}

/// The state at the `FDT_END` token, reading the structure block from `c` on in state `st`.
pub open spec fn walk_from(s: Seq<u8>, strings: Seq<u8>, c: int, st: WalkState) -> Result<
    WalkState,
    FdtError,
>
    decreases s.len() + 4 - c,
{
    match walk_step(s, strings, c, st) {
        WalkStep::Next(n, next) => {
            proof {
                lemma_walk_step_advances(s, strings, c, st);
            }
            walk_from(s, strings, n, next)
        },
        WalkStep::Finished(done) => Ok(done),
        WalkStep::Failed(e) => Err(e),
    }
}

/// A machine description, as numbers.
pub struct MachineView {
    pub ram_start: usize,
    pub ram_end: usize,
    pub uart_base: usize,
    pub timebase_hz: u64,
    pub virtio_mmio: Seq<usize>,
}

/// The machine description in the final walk state, or what it lacks.
pub open spec fn machine_of(st: WalkState) -> Result<MachineView, FdtError> {
    match st.ram {
        None => Err(FdtError::MissingMemory),
        Some(ram) => if ram.0 + ram.1 > u64::MAX || ram.0 > usize::MAX || ram.0 + ram.1 > usize::MAX {
            Err(FdtError::BadStructure)
        } else {
            match st.uart {
                None => Err(FdtError::MissingUart),
                Some(uart) => if uart > usize::MAX {
                    Err(FdtError::BadStructure)
                } else {
                    match st.timebase {
                        None => Err(FdtError::MissingTimebase),
                        Some(hz) => Ok(
                            MachineView {
                                ram_start: ram.0 as usize,
                                ram_end: (ram.0 + ram.1) as usize,
                                uart_base: uart as usize,
                                timebase_hz: hz as u64,
                                virtio_mmio: st.virtio,
                            },
                        ),
                    }
                },
            }
        },
    }
}

/// What the DTB bytes `b` describe: the header checks, then the walk of the
/// structure block with the strings block.
pub open spec fn dtb_machine(b: Seq<u8>) -> Result<MachineView, FdtError> {
    if b.len() < HEADER_LEN {
        Err(FdtError::Truncated)
    } else if be32(b, 0) != FDT_MAGIC {
        Err(FdtError::BadMagic)
    } else if be32(b, 4) < HEADER_LEN || be32(b, 4) > b.len() {
        Err(FdtError::Truncated)
    } else if be32(b, 20) < 16 {
        Err(FdtError::UnsupportedVersion)
    } else if be32(b, 8) + be32(b, 36) > be32(b, 4) || be32(b, 12) + be32(b, 32) > be32(b, 4) {
        Err(FdtError::Truncated)
    } else {
        let structure = b.subrange(be32(b, 8), be32(b, 8) + be32(b, 36));
        let strings = b.subrange(be32(b, 12), be32(b, 12) + be32(b, 32));
        match walk_from(structure, strings, 0, initial_walk_state()) {
            Err(e) => Err(e),
            Ok(done) => machine_of(done),
        }
    }
}

/// What `MachineSpec::from_dtb` yields for the DTB bytes `b`: the described
/// machine, when its RAM is page-aligned, larger than the FDT reservation plus
/// the payload window, and its UART base is not zero.
pub open spec fn from_dtb_spec(b: Seq<u8>) -> Result<MachineView, FdtError> {
    match dtb_machine(b) {
        Err(e) => Err(e),
        Ok(m) => if m.ram_start % 4096 != 0 || m.ram_end % 4096 != 0 || m.ram_end - m.ram_start
            <= FDT_RESERVED_LEN + BUNDLE_MAX_LEN || m.uart_base == 0 {
            Err(FdtError::UnsupportedMachine)
        } else {
            Ok(m)
        },
    }
}

impl MachineSpec {
    /// The slots of `virtio_mmio` past the count hold zero.
    pub open spec fn unused_slots_clear(&self) -> bool {
        forall|i: int| self.virtio_mmio_count <= i < 8 ==> #[trigger] self.virtio_mmio@[i] == 0
    }

    pub open spec fn view_of(&self) -> MachineView {
        MachineView {
            ram_start: self.ram.start,
            ram_end: self.ram.end,
            uart_base: self.uart_base,
            timebase_hz: self.timebase_hz,
            virtio_mmio: self.virtio_mmio@.subrange(0, self.virtio_mmio_count as int),
        }
    }
}

const NAME_MEMORY: [u8; 6] = [0x6d, 0x65, 0x6d, 0x6f, 0x72, 0x79];

const NAME_CPUS: [u8; 4] = [0x63, 0x70, 0x75, 0x73];

const NAME_ADDRESS_CELLS: [u8; 14] = [
    0x23,
    0x61,
    0x64,
    0x64,
    0x72,
    0x65,
    0x73,
    0x73,
    0x2d,
    0x63,
    0x65,
    0x6c,
    0x6c,
    0x73,
];

const NAME_SIZE_CELLS: [u8; 11] = [0x23, 0x73, 0x69, 0x7a, 0x65, 0x2d, 0x63, 0x65, 0x6c, 0x6c, 0x73];

const NAME_REG: [u8; 3] = [0x72, 0x65, 0x67];

const NAME_DEVICE_TYPE: [u8; 11] = [0x64, 0x65, 0x76, 0x69, 0x63, 0x65, 0x5f, 0x74, 0x79, 0x70, 0x65];

const NAME_COMPATIBLE: [u8; 10] = [0x63, 0x6f, 0x6d, 0x70, 0x61, 0x74, 0x69, 0x62, 0x6c, 0x65];

const NAME_TIMEBASE: [u8; 18] = [
    0x74,
    0x69,
    0x6d,
    0x65,
    0x62,
    0x61,
    0x73,
    0x65,
    0x2d,
    0x66,
    0x72,
    0x65,
    0x71,
    0x75,
    0x65,
    0x6e,
    0x63,
    0x79,
];

const COMPAT_NS16550A: [u8; 8] = [0x6e, 0x73, 0x31, 0x36, 0x35, 0x35, 0x30, 0x61];

const COMPAT_NS16550: [u8; 7] = [0x6e, 0x73, 0x31, 0x36, 0x35, 0x35, 0x30];

const COMPAT_VIRTIO_MMIO: [u8; 11] = [0x76, 0x69, 0x72, 0x74, 0x69, 0x6f, 0x2c, 0x6d, 0x6d, 0x69, 0x6f];

/// The index of the first zero byte of `s` at or after `from`, or `s.len()`.
fn find_zero(s: &[u8], from: usize) -> (r: usize)
    requires
        from <= s@.len(),
    ensures
        from <= r <= s@.len(),
        r < s@.len() ==> first_zero(s@, from as int) == Some(r as int),
        r == s@.len() ==> first_zero(s@, from as int) is None,
{
    let mut j = from;
    while j < s.len() && s[j] != 0
        invariant
            from <= j <= s@.len(),
            first_zero(s@, from as int) == first_zero(s@, j as int),
        decreases s@.len() - j,
    {
        j = j + 1;
    }
    j
}

/// Whether `target` is one of the zero-separated entries of `v`.
fn has_entry_exec(v: &[u8], target: &[u8]) -> (r: bool)
    requires
        target@.len() > 0,
        forall|k: int| 0 <= k < target@.len() ==> target@[k] != 0,
    ensures
        r == has_entry(v@, target@),
{
    let mut start: usize = 0;
    let ghost t = target@;
    loop
        invariant
            start <= v@.len(),
            start == 0 || v@[start - 1] == 0,
            t == target@,
            t.len() > 0,
            forall|k: int| 0 <= k < t.len() ==> t[k] != 0,
            forall|i: int|
                0 <= i < start && i + t.len() <= v@.len() && (i == 0 || v@[i - 1] == 0) && (i
                    + t.len() == v@.len() || v@[i + t.len()] == 0) ==> #[trigger] v@.subrange(
                    i,
                    i + t.len(),
                ) != t,
        decreases v@.len() - start,
    {
        let end = find_zero(v, start);
        proof {
            lemma_first_zero_bounds(v@, start as int);
        }
        if range_eq(v, start, end, target) {
            assert(v@.subrange(start as int, start + t.len()) == t);
            return true;
        }
        proof {
            assert forall|i: int|
                0 <= i < end + 1 && i + t.len() <= v@.len() && (i == 0 || v@[i - 1] == 0) && (i
                    + t.len() == v@.len() || v@[i + t.len()] == 0) implies #[trigger] v@.subrange(
                i,
                i + t.len(),
            ) != t by {
                if i >= start {
                    if i > start {
                        assert(v@[i - 1] == 0);
                    }
                    if i == start && v@.subrange(i, i + t.len()) == t {
                        if i + t.len() < end {
                            assert(v@[i + t.len()] != 0);
                        }
                        if i + t.len() > end {
                            assert(v@.subrange(i, i + t.len())[end - i] == v@[end as int]);
                        }
                        assert(v@.subrange(start as int, end as int) =~= t);
                    }
                }
            }
        }
        if end == v.len() {
            return false;
        }
        start = end + 1;
    }
}

/// The open-node bookkeeping of the walk, held in place.
struct Walk {
    depth: usize,
    cells: Vec<(u32, u32)>,
    scans: Vec<Option<NodeScan>>,
    ram: Option<(u64, u64)>,
    uart: Option<u64>,
    timebase: Option<u32>,
    virtio: Vec<usize>,
}

impl Walk {
    spec fn view(&self) -> WalkState {
        WalkState {
            depth: self.depth as int,
            cells: self.cells@,
            scans: self.scans@,
            ram: self.ram,
            uart: self.uart,
            timebase: self.timebase,
            virtio: self.virtio@,
        }
    }

    spec fn wf(&self) -> bool {
        &&& self.depth <= MAX_DEPTH
        &&& self.cells@.len() == MAX_DEPTH
        &&& self.scans@.len() == MAX_DEPTH
        &&& self.virtio@.len() <= VIRTIO_MMIO_MAX
    }
}

enum Outcome {
    Next(usize),
    Finished,
    Failed(FdtError),
}

/// `n` past the end of the block: reading on from it fails at once.
proof fn lemma_walk_past_end(s: Seq<u8>, strings: Seq<u8>, n: int, st: WalkState)
    requires
        n > s.len(),
    ensures
        walk_from(s, strings, n, st) == Err::<WalkState, FdtError>(FdtError::BadStructure),
{
}

/// What reading the `reg` value `v` in the open node at depth `d` of `st` gives,
/// with that node's scan `scan`, when the value is decoded with `cells`.
pub open spec fn reg_read_with(v: Seq<u8>, d: int, scan: NodeScan, st: WalkState, cells: (u32, u32)) -> Result<
    WalkState,
    FdtError,
> {
    match reg_spec(v, cells) {
        Err(e) => Err(e),
        Ok(r) => Ok(
            WalkState { scans: st.scans.update(d, Some(NodeScan { reg_first: Some(r), ..scan })), ..st },
        ),
    }
}

/// A node's `reg` is decoded with the cells its parent declares: once the open
/// node at depth `d` has read `#address-cells = a` and `#size-cells = z`, the
/// `reg` of a child that begins under it is read with `(a, z)`, whatever its
/// name and whatever cells any other node declared. So under a parent that
/// declares one address cell and no size cell, a one-word `reg` is accepted
/// and read as that word with size zero.
pub proof fn lemma_child_reg_uses_parent_cells(
    s: Seq<u8>,
    c: int,
    st: WalkState,
    av: Seq<u8>,
    zv: Seq<u8>,
    v: Seq<u8>,
)
    requires
        1 <= st.depth < MAX_DEPTH,
        st.cells.len() == MAX_DEPTH,
        st.scans.len() == MAX_DEPTH,
        st.scans[st.depth - 1] is Some,
        av.len() >= 4,
        zv.len() >= 4,
    ensures
        ({
            let d = st.depth - 1;
            let st1 = apply_prop(name_address_cells(), av, d, st.scans[d]->0, st)->Ok_0;
            let st2 = apply_prop(name_size_cells(), zv, d, st1.scans[d]->0, st1)->Ok_0;
            let cells = (be32(av, 0) as u32, be32(zv, 0) as u32);
            begin_step(s, c, st2) matches WalkStep::Next(_, st3) ==> {
                &&& st3.depth == st.depth + 1
                &&& st3.scans[st.depth] is Some
                &&& apply_prop(name_reg(), v, st.depth, st3.scans[st.depth]->0, st3)
                    == reg_read_with(v, st.depth, st3.scans[st.depth]->0, st3, cells)
                &&& (cells == (1u32, 0u32) && v.len() >= 4 ==> apply_prop(
                    name_reg(),
                    v,
                    st.depth,
                    st3.scans[st.depth]->0,
                    st3,
                )->Ok_0.scans[st.depth]->0.reg_first == Some((be32(v, 0) as u64, 0u64)))
            }
        }),
{
    let d = st.depth - 1;
    let st1 = apply_prop(name_address_cells(), av, d, st.scans[d]->0, st)->Ok_0;
    let st2 = apply_prop(name_size_cells(), zv, d, st1.scans[d]->0, st1)->Ok_0;
    assert(st1.cells[d] == (be32(av, 0) as u32, st.cells[d].1));
    assert(st2.cells[d] == (be32(av, 0) as u32, be32(zv, 0) as u32));
    assert(name_reg() != name_address_cells());
    assert(name_reg() != name_size_cells());
}

/// Where no node declares cells, `reg` is read with two address cells and two
/// size cells: at the root, and in a child that begins right after its parent.
pub proof fn lemma_undeclared_cells(s: Seq<u8>, c: int, st: WalkState, s2: Seq<u8>, c2: int)
    requires
        st.cells.len() == MAX_DEPTH,
        st.scans.len() == MAX_DEPTH,
        0 <= st.depth,
    ensures
        begin_step(s, c, st) matches WalkStep::Next(_, st1) ==> {
            &&& st.depth == 0 ==> st1.scans[0]->0.reg_cells == (2u32, 2u32)
            &&& begin_step(s2, c2, st1) matches WalkStep::Next(_, st2) ==> st2.scans[st.depth
                + 1]->0.reg_cells == (2u32, 2u32)
        },
{
}

fn round_up4(x: usize, limit: usize) -> (r: Option<usize>)
    ensures
        round4(x as int) <= limit ==> r == Some(round4(x as int) as usize),
        round4(x as int) > limit ==> r is None,
{
    let pad = (4 - x % 4) % 4;
    if x > limit || pad > limit - x {
        None
    } else {
        Some(x + pad)
    }
}

fn begin_node(s: &[u8], c: usize, w: &mut Walk) -> (r: Outcome)
    requires
        old(w).wf(),
        c <= s@.len(),
    ensures
        final(w).wf(),
        match r {
            Outcome::Next(n) => begin_step(s@, c as int, old(w).view()) matches WalkStep::Next(m, st)
                && m == n && st == final(w).view(),
            Outcome::Finished => false,
            Outcome::Failed(e) => begin_step(s@, c as int, old(w).view()) == WalkStep::Failed(e)
                || (begin_step(s@, c as int, old(w).view()) matches WalkStep::Next(m, _) && m
                > s@.len() && e == FdtError::BadStructure),
        },
{
    if w.depth >= MAX_DEPTH {
        return Outcome::Failed(FdtError::BadStructure);
    }
    let end = find_zero(s, c);
    if end == s.len() || end - c > MAX_NAME {
        return Outcome::Failed(FdtError::BadStructure);
    }
    let name_bytes = vstd::slice::slice_subrange(s, c, end);
    if str_from_utf8(name_bytes).is_none() {
        return Outcome::Failed(FdtError::BadStructure);
    }
    let ghost name = s@.subrange(c as int, end as int);
    proof {
        assert(NAME_MEMORY@ =~= name_memory());
        assert(NAME_CPUS@ =~= name_cpus());
    }
    let name_is_memory = end - c >= 6 && range_eq(s, c, c + 6, NAME_MEMORY.as_slice());
    proof {
        if end - c >= 6 {
            assert(name.subrange(0, 6) =~= s@.subrange(c as int, c + 6));
        }
    }
    let name_is_cpus = range_eq(s, c, end, NAME_CPUS.as_slice());
    let parent = if w.depth == 0 {
        (2u32, 2u32)
    } else {
        w.cells[w.depth - 1]
    };
    let next = match round_up4(end + 1, s.len()) {
        Some(n) => n,
        None => return Outcome::Failed(FdtError::BadStructure),
    };
    let scan = NodeScan {
        name_is_memory,
        name_is_cpus,
        device_is_memory: false,
        has_ns16550: false,
        is_virtio_mmio: false,
        reg_cells: parent,
        reg_first: None,
        timebase: None,
    };
    let d = w.depth;
    w.cells.set(d, (2u32, 2u32));
    w.scans.set(d, Some(scan));
    w.depth = d + 1;
    Outcome::Next(next)
}

fn end_node(c: usize, w: &mut Walk) -> (r: Outcome)
    requires
        old(w).wf(),
    ensures
        final(w).wf(),
        match r {
            Outcome::Next(n) => end_step(c as int, old(w).view()) matches WalkStep::Next(m, st) && m
                == n && st == final(w).view(),
            Outcome::Finished => false,
            Outcome::Failed(e) => end_step(c as int, old(w).view()) == WalkStep::Failed(e),
        },
{
    if w.depth == 0 {
        return Outcome::Failed(FdtError::BadStructure);
    }
    let d = w.depth - 1;
    w.depth = d;
    let scan = match w.scans[d] {
        Some(scan) => scan,
        None => NodeScan {
            name_is_memory: false,
            name_is_cpus: false,
            device_is_memory: false,
            has_ns16550: false,
            is_virtio_mmio: false,
            reg_cells: (0, 0),
            reg_first: None,
            timebase: None,
        },
    };
    w.scans.set(d, None);
    if d == 0 {
        return Outcome::Next(c);
    }
    if scan.name_is_memory && scan.device_is_memory && w.ram.is_none() {
        w.ram = scan.reg_first;
    }
    if scan.name_is_cpus && scan.timebase.is_some() {
        w.timebase = scan.timebase;
    }
    if scan.has_ns16550 && w.uart.is_none() {
        w.uart = match scan.reg_first {
            Some(r) => Some(r.0),
            None => None,
        };
    }
    if scan.is_virtio_mmio && w.virtio.len() < VIRTIO_MMIO_MAX {
        if let Some(r) = scan.reg_first {
            if r.0 <= usize::MAX as u64 {
                w.virtio.push(r.0 as usize);
            }
        }
    }
    Outcome::Next(c)
}

fn prop_name(strings: &[u8], offset: usize) -> (r: Result<usize, FdtError>)
    ensures
        match r {
            Ok(end) => offset <= end <= strings@.len() && prop_name_spec(strings@, offset as int)
                == Ok::<Seq<u8>, FdtError>(strings@.subrange(offset as int, end as int)),
            Err(e) => prop_name_spec(strings@, offset as int) == Err::<Seq<u8>, FdtError>(e),
        },
{
    if offset > strings.len() {
        return Err(FdtError::BadStructure);
    }
    let end = find_zero(strings, offset);
    if end == strings.len() || end - offset > MAX_NAME {
        return Err(FdtError::BadStructure);
    }
    if str_from_utf8(vstd::slice::slice_subrange(strings, offset, end)).is_none() {
        return Err(FdtError::BadStructure);
    }
    Ok(end)
}

fn reg_cell_exec(v: &[u8], at: usize, cells: u32) -> (r: Option<(u64, usize)>)
    requires
        at <= v@.len(),
    ensures
        match r {
            Some(x) => reg_cell(v@, at as int, cells) == Some((x.0, x.1 as int)),
            None => reg_cell(v@, at as int, cells) is None,
        },
{
    if cells == 0 {
        Some((0, at))
    } else if cells == 1 {
        if v.len() - at < 4 {
            None
        } else {
            Some((read_be32(v, at) as u64, at + 4))
        }
    } else if cells == 2 {
        if v.len() - at < 8 {
            None
        } else {
            let high = read_be32(v, at) as u64;
            let low = read_be32(v, at + 4) as u64;
            Some((high * 0x1_0000_0000 + low, at + 8))
        }
    } else {
        None
    }
}

fn decode_reg(v: &[u8], cells: (u32, u32)) -> (r: Result<(u64, u64), FdtError>)
    ensures
        r == reg_spec(v@, cells),
{
    let address = match reg_cell_exec(v, 0, cells.0) {
        Some(a) => a,
        None => return Err(FdtError::BadStructure),
    };
    let size = match reg_cell_exec(v, address.1, cells.1) {
        Some(b) => b,
        None => return Err(FdtError::BadStructure),
    };
    Ok((address.0, size.0))
}

fn read_word(v: &[u8]) -> (r: Result<u32, FdtError>)
    ensures
        v@.len() < 4 ==> r == Err::<u32, FdtError>(FdtError::Truncated),
        v@.len() >= 4 ==> r == Ok::<u32, FdtError>(be32(v@, 0) as u32),
{
    if v.len() < 4 {
        Err(FdtError::Truncated)
    } else {
        Ok(read_be32(v, 0))
    }
}

#[verifier::rlimit(30)]
fn prop_node(s: &[u8], strings: &[u8], c: usize, w: &mut Walk) -> (r: Outcome)
    requires
        old(w).wf(),
        c <= s@.len(),
    ensures
        final(w).wf(),
        match r {
            Outcome::Next(n) => prop_step(s@, strings@, c as int, old(w).view()) matches WalkStep::Next(
                m,
                st,
            ) && m == n && st == final(w).view(),
            Outcome::Finished => false,
            Outcome::Failed(e) => prop_step(s@, strings@, c as int, old(w).view()) == WalkStep::Failed(
                e,
            ) || (prop_step(s@, strings@, c as int, old(w).view()) matches WalkStep::Next(m, _) && m
                > s@.len() && e == FdtError::BadStructure),
        },
{
    if w.depth == 0 {
        return Outcome::Failed(FdtError::BadStructure);
    }
    if s.len() - c < 8 {
        return Outcome::Failed(FdtError::Truncated);
    }
    let len = read_be32(s, c) as usize;
    let name_offset = read_be32(s, c + 4) as usize;
    let value_start = c + 8;
    if len > s.len() - value_start {
        return Outcome::Failed(FdtError::BadStructure);
    }
    let value = vstd::slice::slice_subrange(s, value_start, value_start + len);
    let name_end = match prop_name(strings, name_offset) {
        Ok(end) => end,
        Err(e) => return Outcome::Failed(e),
    };
    let d = w.depth - 1;
    let scan = match w.scans[d] {
        Some(scan) => scan,
        None => return Outcome::Failed(FdtError::BadStructure),
    };
    proof {
        assert(NAME_ADDRESS_CELLS@ =~= name_address_cells());
        assert(NAME_SIZE_CELLS@ =~= name_size_cells());
        assert(NAME_REG@ =~= name_reg());
        assert(NAME_DEVICE_TYPE@ =~= name_device_type());
        assert(NAME_COMPATIBLE@ =~= name_compatible());
        assert(NAME_TIMEBASE@ =~= name_timebase());
        assert(NAME_MEMORY@ =~= name_memory());
        assert(COMPAT_NS16550A@ =~= compat_ns16550a());
        assert(COMPAT_NS16550@ =~= compat_ns16550());
        assert(COMPAT_VIRTIO_MMIO@ =~= compat_virtio_mmio());
    }
    if range_eq(strings, name_offset, name_end, NAME_ADDRESS_CELLS.as_slice()) {
        let cells = match read_word(value) {
            Ok(word) => word,
            Err(e) => return Outcome::Failed(e),
        };
        let old_cells = w.cells[d];
        w.cells.set(d, (cells, old_cells.1));
    } else if range_eq(strings, name_offset, name_end, NAME_SIZE_CELLS.as_slice()) {
        let cells = match read_word(value) {
            Ok(word) => word,
            Err(e) => return Outcome::Failed(e),
        };
        let old_cells = w.cells[d];
        w.cells.set(d, (old_cells.0, cells));
    } else if range_eq(strings, name_offset, name_end, NAME_REG.as_slice()) {
        let reg = match decode_reg(value, scan.reg_cells) {
            Ok(reg) => reg,
            Err(e) => return Outcome::Failed(e),
        };
        w.scans.set(d, Some(NodeScan { reg_first: Some(reg), ..scan }));
    } else if range_eq(strings, name_offset, name_end, NAME_DEVICE_TYPE.as_slice()) {
        let memory = range_eq(value, 0, value.len(), NAME_MEMORY.as_slice()) || (value.len() == 7
            && value[6] == 0 && range_eq(value, 0, 6, NAME_MEMORY.as_slice()));
        proof {
            if value@.len() == 7 {
                assert(value@ =~= value@.subrange(0, 6).push(value@[6]));
                assert(value@.subrange(0, value@.len() as int) =~= value@);
            }
            assert(value@.subrange(0, value@.len() as int) =~= value@);
            if value@ == name_memory().push(0) {
                assert(value@.subrange(0, 6) =~= name_memory());
            }
        }
        w.scans.set(d, Some(NodeScan { device_is_memory: memory, ..scan }));
    } else if range_eq(strings, name_offset, name_end, NAME_COMPATIBLE.as_slice()) {
        let ns = has_entry_exec(value, COMPAT_NS16550A.as_slice()) || has_entry_exec(
            value,
            COMPAT_NS16550.as_slice(),
        );
        let virtio = has_entry_exec(value, COMPAT_VIRTIO_MMIO.as_slice());
        w.scans.set(d, Some(NodeScan { has_ns16550: ns, is_virtio_mmio: virtio, ..scan }));
    } else if range_eq(strings, name_offset, name_end, NAME_TIMEBASE.as_slice()) {
        let hz = match read_word(value) {
            Ok(word) => word,
            Err(e) => return Outcome::Failed(e),
        };
        w.scans.set(d, Some(NodeScan { timebase: Some(hz), ..scan }));
    }
    match round_up4(value_start + len, s.len()) {
        Some(n) => Outcome::Next(n),
        None => Outcome::Failed(FdtError::BadStructure),
    }
}

fn walk_structure(structure: &[u8], strings: &[u8]) -> (r: Result<MachineSpec, FdtError>)
    ensures
        match r {
            Ok(spec) => (match walk_from(structure@, strings@, 0, initial_walk_state()) {
                Ok(done) => machine_of(done) == Ok::<MachineView, FdtError>(spec.view_of()),
                Err(_) => false,
            }) && spec.virtio_mmio_count <= VIRTIO_MMIO_MAX && spec.unused_slots_clear(),
            Err(e) => match walk_from(structure@, strings@, 0, initial_walk_state()) {
                Ok(done) => machine_of(done) == Err::<MachineView, FdtError>(e),
                Err(walk_error) => walk_error == e,
            },
        },
{
    let mut w = Walk {
        depth: 0,
        cells: vec![(2u32, 2u32), (2u32, 2u32), (2u32, 2u32), (2u32, 2u32), (2u32, 2u32), (2u32, 2u32), (2u32, 2u32), (2u32, 2u32)],
        scans: vec![None, None, None, None, None, None, None, None],
        ram: None,
        uart: None,
        timebase: None,
        virtio: Vec::new(),
    };
    assert(w.view() == initial_walk_state()) by {
        assert(w.cells@ =~= initial_walk_state().cells);
        assert(w.scans@ =~= initial_walk_state().scans);
        assert(w.virtio@ =~= initial_walk_state().virtio);
    }
    let ghost s = structure@;
    let ghost st = strings@;
    let mut cursor: usize = 0;
    loop
        invariant
            w.wf(),
            cursor <= s.len(),
            s == structure@,
            st == strings@,
            walk_from(s, st, 0, initial_walk_state()) == walk_from(s, st, cursor as int, w.view()),
        ensures
            w.wf(),
            s == structure@,
            st == strings@,
            walk_from(s, st, 0, initial_walk_state()) == Ok::<WalkState, FdtError>(w.view()),
        decreases s.len() - cursor,
    {
        let ghost before = w.view();
        let ghost c0 = cursor as int;
        proof {
            lemma_walk_step_advances(s, st, c0, before);
        }
        if structure.len() - cursor < 4 {
            return Err(FdtError::BadStructure);
        }
        let token = read_be32(structure, cursor);
        let at = cursor + 4;
        let outcome = if token == FDT_BEGIN_NODE {
            begin_node(structure, at, &mut w)
        } else if token == FDT_END_NODE {
            end_node(at, &mut w)
        } else if token == FDT_PROP {
            prop_node(structure, strings, at, &mut w)
        } else if token == FDT_NOP {
            Outcome::Next(at)
        } else if token == FDT_END {
            if w.depth != 0 {
                Outcome::Failed(FdtError::BadStructure)
            } else {
                Outcome::Finished
            }
        } else {
            Outcome::Failed(FdtError::BadStructure)
        };
        match outcome {
            Outcome::Next(n) => {
                if n > structure.len() {
                    proof {
                        lemma_walk_past_end(s, st, n as int, w.view());
                    }
                    return Err(FdtError::BadStructure);
                }
                cursor = n;
            },
            Outcome::Finished => break,
            Outcome::Failed(e) => {
                proof {
                    if let WalkStep::Next(m, next) = walk_step(s, st, c0, before) {
                        lemma_walk_past_end(s, st, m, next);
                    }
                }
                return Err(e);
            },
        }
    }
    let ram = match w.ram {
        Some(ram) => ram,
        None => return Err(FdtError::MissingMemory),
    };
    if ram.0 > u64::MAX - ram.1 {
        return Err(FdtError::BadStructure);
    }
    let ram_end = ram.0 + ram.1;
    if ram.0 > usize::MAX as u64 || ram_end > usize::MAX as u64 {
        return Err(FdtError::BadStructure);
    }
    let uart = match w.uart {
        Some(uart) => uart,
        None => return Err(FdtError::MissingUart),
    };
    if uart > usize::MAX as u64 {
        return Err(FdtError::BadStructure);
    }
    let timebase = match w.timebase {
        Some(hz) => hz,
        None => return Err(FdtError::MissingTimebase),
    };
    let mut virtio_mmio = [0usize; 8];
    let mut k: usize = 0;
    while k < w.virtio.len()
        invariant
            w.virtio@.len() <= VIRTIO_MMIO_MAX,
            k <= w.virtio@.len(),
            forall|j: int| 0 <= j < k ==> virtio_mmio@[j] == w.virtio@[j],
            forall|j: int| k <= j < 8 ==> virtio_mmio@[j] == 0,
        decreases w.virtio@.len() - k,
    {
        virtio_mmio[k] = w.virtio[k];
        k = k + 1;
    }
    let spec = MachineSpec {
        ram: core::ops::Range { start: ram.0 as usize, end: ram_end as usize },
        uart_base: uart as usize,
        timebase_hz: timebase as u64,
        virtio_mmio,
        virtio_mmio_count: w.virtio.len(),
    };
    assert(spec.view_of().virtio_mmio =~= w.virtio@);
    Ok(spec)
}

fn parse_machine_spec(bytes: &[u8]) -> (r: Result<MachineSpec, FdtError>)
    ensures
        match r {
            Ok(spec) => dtb_machine(bytes@) == Ok::<MachineView, FdtError>(spec.view_of())
                && spec.virtio_mmio_count <= VIRTIO_MMIO_MAX && spec.unused_slots_clear(),
            Err(e) => dtb_machine(bytes@) == Err::<MachineView, FdtError>(e),
        },
{
    if bytes.len() < HEADER_LEN {
        return Err(FdtError::Truncated);
    }
    if read_be32(bytes, 0) != FDT_MAGIC {
        return Err(FdtError::BadMagic);
    }
    let total = read_be32(bytes, 4) as usize;
    if total < HEADER_LEN || total > bytes.len() {
        return Err(FdtError::Truncated);
    }
    let dtb = vstd::slice::slice_subrange(bytes, 0, total);
    let off_struct = read_be32(dtb, 8) as usize;
    let off_strings = read_be32(dtb, 12) as usize;
    let version = read_be32(dtb, 20);
    if version < 16 {
        return Err(FdtError::UnsupportedVersion);
    }
    let size_strings = read_be32(dtb, 32) as usize;
    let size_struct = read_be32(dtb, 36) as usize;
    if off_struct > total || size_struct > total - off_struct {
        return Err(FdtError::Truncated);
    }
    if off_strings > total || size_strings > total - off_strings {
        return Err(FdtError::Truncated);
    }
    let structure = vstd::slice::slice_subrange(dtb, off_struct, off_struct + size_struct);
    let strings = vstd::slice::slice_subrange(dtb, off_strings, off_strings + size_strings);
    proof {
        assert(structure@ =~= bytes@.subrange(off_struct as int, off_struct + size_struct));
        assert(strings@ =~= bytes@.subrange(off_strings as int, off_strings + size_strings));
    }
    walk_structure(structure, strings)
}

impl MachineSpec {
    /// Checks the DTB and takes out the machine description MiniOS needs.
    pub fn from_dtb(bytes: &[u8]) -> (r: Result<Self, FdtError>)
        ensures
            match r {
                Ok(spec) => from_dtb_spec(bytes@) == Ok::<MachineView, FdtError>(spec.view_of())
                    && spec.virtio_mmio_count <= VIRTIO_MMIO_MAX && spec.unused_slots_clear(),
                Err(e) => from_dtb_spec(bytes@) == Err::<MachineView, FdtError>(e),
            },
    {
        let spec = match parse_machine_spec(bytes) {
            Ok(spec) => spec,
            Err(e) => return Err(e),
        };
        let minimum = FDT_RESERVED_LEN + BUNDLE_MAX_LEN as usize;
        let aligned = spec.ram.start % 4096 == 0 && spec.ram.end % 4096 == 0;
        if !aligned || spec.ram.end - spec.ram.start <= minimum || spec.uart_base == 0 {
            return Err(FdtError::UnsupportedMachine);
        }
        Ok(spec)
    }

    /// The reserved boot payload window: the `BUNDLE_MAX_LEN` bytes right below the FDT reservation.
    pub fn payload_window(&self) -> (r: core::ops::Range<usize>)
        requires
            self.ram.end >= FDT_RESERVED_LEN + BUNDLE_MAX_LEN,
        ensures
            r.end == self.ram.end - FDT_RESERVED_LEN,
            r.start == self.ram.end - FDT_RESERVED_LEN - BUNDLE_MAX_LEN,
    {
        let end = self.ram.end - FDT_RESERVED_LEN;
        core::ops::Range { start: end - BUNDLE_MAX_LEN as usize, end }
    }

    /// The top of the physical RAM that the frame allocator manages.
    pub fn managed_end(&self) -> (r: usize)
        requires
            self.ram.end >= FDT_RESERVED_LEN + BUNDLE_MAX_LEN,
        ensures
            r == self.ram.end - FDT_RESERVED_LEN - BUNDLE_MAX_LEN,
    {
        self.payload_window().start
    }

    /// The reservation at the end of RAM where the FDT lies.
    pub fn fdt_region(&self) -> (r: core::ops::Range<usize>)
        requires
            self.ram.end >= FDT_RESERVED_LEN,
        ensures
            r.start == self.ram.end - FDT_RESERVED_LEN,
            r.end == self.ram.end,
    {
        core::ops::Range { start: self.ram.end - FDT_RESERVED_LEN, end: self.ram.end }
    }
}

} // verus!
