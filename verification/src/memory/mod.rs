//! Physical memory: the reference layout, the kernel's sections, the page
//! frame allocator and the kernel heap.

pub mod frame;
pub mod heap;
pub mod heap_layout;
pub mod kernel_stack;

use vstd::prelude::*;
use core::ops::Range;
use crate::memory::frame::PAGE_SIZE;

verus! {

// Fixed reference constants for QEMU `virt` with `-m 128M`. They are not the
// layout the kernel runs with: that comes from the device tree
// (`fdt::MachineSpec`), which puts the `BUNDLE_MAX_LEN` (8 MiB) payload window
// right below the FDT reservation, at `0x8760_0000..0x87e0_0000`, with managed
// memory ending at `0x8760_0000` (see `machine::plan_memory`). The reference
// window below spans the same 8 MiB but runs up to the end of RAM, so it
// overlaps `FDT_RESERVED_START..FDT_RESERVED_END`; `BootPayload::parse` takes
// only its length, as the bound on a bundle's declared size.
pub const PHYSICAL_MEMORY_END: usize = 0x8780_0000;

pub const BOOT_PAYLOAD_START: usize = 0x8780_0000;

/// The exclusive upper end of the reference payload window: the end of RAM.
pub const BOOT_PAYLOAD_END: usize = 0x8800_0000;

/// The region `0x87e0_0000..0x8800_0000` into which QEMU `virt` writes the FDT.
pub const FDT_RESERVED_START: usize = 0x87e0_0000;

pub const FDT_RESERVED_END: usize = 0x8800_0000;

/// The length of the initial kernel heap, cut from the top of managed RAM;
/// the frame allocator's range ends this much below the managed end.
pub const KERNEL_HEAP_LEN: usize = 1024 * 1024;

/// The page-aligned sections of the kernel image, in address order, the boot
/// stack ending where the image ends.
pub struct KernelSections {
    text: Range<usize>,
    rodata: Range<usize>,
    writable: Range<usize>,
    boot_stack: Range<usize>,
    kernel_end: usize,
}

#[derive(Debug, Clone, Copy, PartialEq, Eq, Structural)]
pub enum LayoutError {
    Unaligned,
    Empty,
    Overlap,
    EndMismatch,
}

pub open spec fn page_aligned(a: usize) -> bool {
    a % PAGE_SIZE == 0
}

/// Why the sections cannot describe a kernel image, checked in this order:
/// a boundary off a page, an empty section, sections out of order or
/// overlapping, the boot stack not ending at the image's end.
pub open spec fn layout_error(
    text: Range<usize>,
    rodata: Range<usize>,
    writable: Range<usize>,
    boot_stack: Range<usize>,
    kernel_end: usize,
) -> Option<LayoutError> {
    if !(page_aligned(text.start) && page_aligned(text.end) && page_aligned(rodata.start)
        && page_aligned(rodata.end) && page_aligned(writable.start) && page_aligned(writable.end)
        && page_aligned(boot_stack.start) && page_aligned(boot_stack.end) && page_aligned(
        kernel_end,
    )) {
        Some(LayoutError::Unaligned)
    } else if text.start >= text.end || rodata.start >= rodata.end || writable.start
        >= writable.end || boot_stack.start >= boot_stack.end {
        Some(LayoutError::Empty)
    } else if text.end > rodata.start || rodata.end > writable.start || writable.end
        > boot_stack.start {
        Some(LayoutError::Overlap)
    } else if boot_stack.end != kernel_end {
        Some(LayoutError::EndMismatch)
    } else {
        None
    }
}

impl KernelSections {
    pub fn new(
        text: Range<usize>,
        rodata: Range<usize>,
        writable: Range<usize>,
        boot_stack: Range<usize>,
        kernel_end: usize,
    ) -> (r: Result<Self, LayoutError>)
        ensures
            match layout_error(text, rodata, writable, boot_stack, kernel_end) {
                Some(e) => r == Err::<Self, LayoutError>(e),
                None => (r matches Ok(s) && s.spec_text() == text && s.spec_rodata() == rodata
                    && s.spec_writable() == writable && s.spec_boot_stack() == boot_stack
                    && s.spec_kernel_end() == kernel_end),
            },
    {
        let boundaries: [usize; 9] = [
            text.start,
            text.end,
            rodata.start,
            rodata.end,
            writable.start,
            writable.end,
            boot_stack.start,
            boot_stack.end,
            kernel_end,
        ];
        let mut i: usize = 0;
        while i < 9
            invariant
                i <= 9,
                boundaries@ == seq![
                    text.start,
                    text.end,
                    rodata.start,
                    rodata.end,
                    writable.start,
                    writable.end,
                    boot_stack.start,
                    boot_stack.end,
                    kernel_end,
                ],
                forall|k: int| 0 <= k < i ==> page_aligned(#[trigger] boundaries@[k]),
            decreases 9 - i,
        {
            if boundaries[i] % PAGE_SIZE != 0 {
                assert(!page_aligned(boundaries@[i as int]));
                return Err(LayoutError::Unaligned);
            }
            i = i + 1;
        }
        assert(page_aligned(boundaries@[0]) && page_aligned(boundaries@[1]) && page_aligned(
            boundaries@[2],
        ) && page_aligned(boundaries@[3]) && page_aligned(boundaries@[4]) && page_aligned(
            boundaries@[5],
        ) && page_aligned(boundaries@[6]) && page_aligned(boundaries@[7]) && page_aligned(
            boundaries@[8],
        ));
        if text.start >= text.end || rodata.start >= rodata.end || writable.start >= writable.end
            || boot_stack.start >= boot_stack.end {
            return Err(LayoutError::Empty);
        }
        if text.end > rodata.start || rodata.end > writable.start || writable.end
            > boot_stack.start {
            return Err(LayoutError::Overlap);
        }
        if boot_stack.end != kernel_end {
            return Err(LayoutError::EndMismatch);
        }
        Ok(KernelSections { text, rodata, writable, boot_stack, kernel_end })
    }

    pub closed spec fn spec_text(&self) -> Range<usize> {
        self.text
    }

    pub closed spec fn spec_rodata(&self) -> Range<usize> {
        self.rodata
    }

    pub closed spec fn spec_writable(&self) -> Range<usize> {
        self.writable
    }

    pub closed spec fn spec_boot_stack(&self) -> Range<usize> {
        self.boot_stack
    }

    pub closed spec fn spec_kernel_end(&self) -> usize {
        self.kernel_end
    }

    pub fn kernel_end(&self) -> (r: usize)
        ensures
            r == self.spec_kernel_end(),
    {
        self.kernel_end
    }

    pub fn text(&self) -> (r: Range<usize>)
        ensures
            r == self.spec_text(),
    {
        self.text.start..self.text.end
    }

    pub fn rodata(&self) -> (r: Range<usize>)
        ensures
            r == self.spec_rodata(),
    {
        self.rodata.start..self.rodata.end
    }

    pub fn writable(&self) -> (r: Range<usize>)
        ensures
            r == self.spec_writable(),
    {
        self.writable.start..self.writable.end
    }

    pub fn boot_stack(&self) -> (r: Range<usize>)
        ensures
            r == self.spec_boot_stack(),
    {
        self.boot_stack.start..self.boot_stack.end
    }
}

} // verus!
