# MiniOS, verified

The logic of MiniOS, a small RISC-V kernel, written in Verus and proved
against its contracts: the boot bundle and its manifest, the control-frame
protocol between kernel and host, ELF validation and load planning, the
device tree, physical frames and the kernel heap, the process table, the
shell's line editor and command parser, and the decisions of a payload run.

- `src/` is the verified library. Each module states what its functions do
  over mathematical models (`Seq`, `Map`, integers) and proves it; the laws
  that span several calls are public proof functions next to the code they
  speak of (for example `memory::frame::lemma_allocate_then_release`,
  `memory::heap_layout::lemma_alloc_keeps_layout`,
  `boot_payload::lemma_declared_prefix_suffices`).
- `tests/` runs the library on concrete inputs.
- `app/` is a host stand-in for the kernel's boot path and shell: it reads
  the DTB and the bundle from files and talks over standard input and output.
  Register accesses, traps and switches to user mode belong to the kernel's
  hardware layer, which this crate does not contain.
