//! Taking the machine description from the DTB that OpenSBI hands over, and
//! cutting physical memory into the kernel's regions.
//!
//! Reading the DTB's bytes at the address OpenSBI passes is left to the
//! caller; these functions decide what to read and what to accept.

use vstd::prelude::*;
use core::ops::Range;
use crate::abi::boot::BUNDLE_MAX_LEN;
use crate::bytes::{be32, read_be32};
use crate::fdt::{FDT_MAGIC, FDT_RESERVED_LEN, FdtError, MachineSpec, from_dtb_spec};
use crate::memory::KERNEL_HEAP_LEN;
use crate::memory::frame::PAGE_SIZE;

verus! {

/// How much of the DTB to read first, to learn its total size.
pub const FDT_HEADER_LEN: usize = 40;

/// The DTB address OpenSBI passes must be set and 8-byte aligned.
pub fn check_dtb_address(dtb: usize) -> (r: Result<(), FdtError>)
    ensures
        r == if dtb == 0 || dtb % 8 != 0 {
            Err::<(), FdtError>(FdtError::BadStructure)
        } else {
            Ok(())
        },
{
    if dtb == 0 || dtb % 8 != 0 {
        Err(FdtError::BadStructure)
    } else {
        Ok(())
    }
}

/// The total size a DTB header declares.
pub fn declared_len(header: &[u8]) -> (r: Result<usize, FdtError>)
    ensures
        header@.len() < FDT_HEADER_LEN || be32(header@, 0) != FDT_MAGIC ==> r == Err::<
            usize,
            FdtError,
        >(FdtError::BadMagic),
        header@.len() >= FDT_HEADER_LEN && be32(header@, 0) == FDT_MAGIC ==> r == Ok::<
            usize,
            FdtError,
        >(be32(header@, 4) as usize),
{
    if header.len() < FDT_HEADER_LEN || read_be32(header, 0) != FDT_MAGIC {
        return Err(FdtError::BadMagic);
    }
    Ok(read_be32(header, 4) as usize)
}

/// How many bytes of the DTB to read: the declared size, which must fit in
/// the reservation where QEMU puts the FDT.
pub fn dtb_read_len(header: &[u8]) -> (r: Result<usize, FdtError>)
    ensures
        header@.len() < FDT_HEADER_LEN || be32(header@, 0) != FDT_MAGIC ==> r == Err::<
            usize,
            FdtError,
        >(FdtError::BadMagic),
        header@.len() >= FDT_HEADER_LEN && be32(header@, 0) == FDT_MAGIC && be32(header@, 4)
            > FDT_RESERVED_LEN ==> r == Err::<usize, FdtError>(FdtError::Truncated),
        header@.len() >= FDT_HEADER_LEN && be32(header@, 0) == FDT_MAGIC && be32(header@, 4)
            <= FDT_RESERVED_LEN ==> r == Ok::<usize, FdtError>(be32(header@, 4) as usize),
{
    let total_len = match declared_len(header) {
        Ok(total_len) => total_len,
        Err(error) => {
            return Err(error);
        },
    };
    if total_len > FDT_RESERVED_LEN {
        return Err(FdtError::Truncated);
    }
    Ok(total_len)
}

/// The machine that the DTB `bytes`, found at `dtb`, describes. The DTB must
/// lie in the reservation at the top of its RAM, else a boot payload could
/// overwrite it.
pub fn machine_from_dtb(dtb: usize, bytes: &[u8]) -> (r: Result<MachineSpec, FdtError>)
    ensures
        match from_dtb_spec(bytes@) {
            Err(e) => r == Err::<MachineSpec, FdtError>(e),
            Ok(m) => if m.ram_end - FDT_RESERVED_LEN <= dtb < m.ram_end {
                r matches Ok(spec) && spec.view_of() == m && spec.unused_slots_clear()
            } else {
                r == Err::<MachineSpec, FdtError>(FdtError::UnsupportedMachine)
            },
        },
{
    let spec = match MachineSpec::from_dtb(bytes) {
        Ok(spec) => spec,
        Err(error) => {
            return Err(error);
        },
    };
    let region = spec.fdt_region();
    if !(region.start <= dtb && dtb < region.end) {
        return Err(FdtError::UnsupportedMachine);
    }
    Ok(spec)
}

/// `address` rounded up to a page boundary.
pub fn align_up_to_page(address: usize) -> (r: usize)
    requires
        address + PAGE_SIZE - 1 <= usize::MAX,
    ensures
        r % PAGE_SIZE == 0,
        address <= r < address + PAGE_SIZE,
{
    let r = (address + (PAGE_SIZE - 1)) / PAGE_SIZE * PAGE_SIZE;
    proof {
        let x = address + (PAGE_SIZE - 1);
        assert(r % 4096 == 0 && address <= r < address + 4096) by (nonlinear_arith)
            requires
                r == x / 4096 * 4096,
                x == address + 4095,
                address >= 0,
        ;
    }
    r
}

/// Why physical memory cannot hold the kernel's regions.
#[derive(Debug, Clone, Copy, PartialEq, Eq, Structural)]
pub enum LayoutPlanError {
    /// The kernel image does not end inside managed RAM.
    KernelOutsideRam,
    /// Managed RAM above the kernel image cannot hold the kernel heap.
    HeapDoesNotFit,
}

/// The kernel's cut of physical memory, bottom up: the frames the frame
/// allocator owns, the kernel heap, the boot payload window and the FDT.
#[derive(Debug, PartialEq, Eq)]
pub struct MemoryPlan {
    pub frames: Range<usize>,
    pub heap: Range<usize>,
    pub payload: Range<usize>,
    pub fdt: Range<usize>,
}

/// Cuts the RAM of `machine` above `kernel_memory_start`, the page-aligned
/// end of the kernel image: the top `FDT_RESERVED_LEN` bytes hold the FDT,
/// the `BUNDLE_MAX_LEN` below them the payload window, the `KERNEL_HEAP_LEN`
/// below that the heap, and the rest, down to the kernel, the frames.
pub fn plan_memory(machine: &MachineSpec, kernel_memory_start: usize) -> (r: Result<MemoryPlan, LayoutPlanError>)
    requires
        machine.ram.end >= FDT_RESERVED_LEN + BUNDLE_MAX_LEN,
    ensures
        ({
            let managed_end = machine.ram.end - FDT_RESERVED_LEN - BUNDLE_MAX_LEN;
            if managed_end <= kernel_memory_start || !(machine.ram.start <= kernel_memory_start
                < machine.ram.end) {
                r == Err::<MemoryPlan, LayoutPlanError>(LayoutPlanError::KernelOutsideRam)
            } else if managed_end < KERNEL_HEAP_LEN || managed_end - KERNEL_HEAP_LEN
                <= kernel_memory_start {
                r == Err::<MemoryPlan, LayoutPlanError>(LayoutPlanError::HeapDoesNotFit)
            } else {
                r matches Ok(plan) && plan.frames.start == kernel_memory_start && plan.frames.end
                    == managed_end - KERNEL_HEAP_LEN && plan.heap.start == plan.frames.end
                    && plan.heap.end == managed_end && plan.payload.start == managed_end
                    && plan.payload.end == machine.ram.end - FDT_RESERVED_LEN && plan.fdt.start
                    == plan.payload.end && plan.fdt.end == machine.ram.end
            }
        }),
        r matches Ok(plan) ==> machine.ram.start <= plan.frames.start < plan.frames.end
            == plan.heap.start < plan.heap.end == plan.payload.start < plan.payload.end
            == plan.fdt.start < plan.fdt.end == machine.ram.end,
        r matches Ok(plan) ==> plan.heap.end - plan.heap.start == KERNEL_HEAP_LEN
            && plan.payload.end - plan.payload.start == BUNDLE_MAX_LEN && plan.fdt.end
            - plan.fdt.start == FDT_RESERVED_LEN,
{
    let managed_end = machine.managed_end();
    if managed_end <= kernel_memory_start || !(machine.ram.start <= kernel_memory_start
        && kernel_memory_start < machine.ram.end) {
        return Err(LayoutPlanError::KernelOutsideRam);
    }
    if managed_end < KERNEL_HEAP_LEN || managed_end - KERNEL_HEAP_LEN <= kernel_memory_start {
        return Err(LayoutPlanError::HeapDoesNotFit);
    }
    let heap_start = managed_end - KERNEL_HEAP_LEN;
    let payload = machine.payload_window();
    let fdt = machine.fdt_region();
    Ok(MemoryPlan {
        frames: kernel_memory_start..heap_start,
        heap: heap_start..managed_end,
        payload,
        fdt,
    })
}

} // verus!
