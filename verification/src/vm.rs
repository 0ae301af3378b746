//! Sv39 virtual addresses, pages, and leaf permissions used by the ELF planner.

use vstd::prelude::*;

verus! {

/// The size of a page in bytes.
pub const PAGE_SIZE: u64 = 4096;

/// An address that Sv39 can translate: bits 63..39 all repeat bit 38.
pub open spec fn is_canonical(value: u64) -> bool {
    value < 0x40_0000_0000 || value >= 0xffff_ffc0_0000_0000
}

#[derive(Debug, Clone, Copy, PartialEq, Eq, Structural)]
pub enum AddressError {
    /// The address is not sign-extended from bit 38.
    NonCanonical,
    /// A page start is not a multiple of the page size.
    Unaligned,
}

#[derive(Debug, Clone, Copy, PartialEq, Eq, Structural)]
pub enum PteError {
    /// Write permission without read permission is reserved by RISC-V.
    WriteWithoutRead,
    /// A leaf entry needs at least one of read, write or execute.
    NotALeaf,
}

/// A canonical Sv39 virtual address.
#[derive(Debug, Clone, Copy, PartialEq, Eq, Structural)]
pub struct VirtAddr {
    value: u64,
}

impl VirtAddr {
    pub closed spec fn spec_value(self) -> u64 {
        self.value
    }

    #[verifier::type_invariant]
    pub closed spec fn canonical(self) -> bool {
        is_canonical(self.value)
    }

    /// Accepts exactly the canonical addresses.
    pub fn try_new(value: u64) -> (r: Result<Self, AddressError>)
        ensures
            is_canonical(value) ==> (r matches Ok(a) && a.spec_value() == value),
            !is_canonical(value) ==> r == Err::<Self, AddressError>(AddressError::NonCanonical),
    {
        if value < 0x40_0000_0000 || value >= 0xffff_ffc0_0000_0000 {
            Ok(Self { value })
        } else {
            Err(AddressError::NonCanonical)
        }
    }

    pub fn as_u64(self) -> (r: u64)
        ensures
            r == self.spec_value(),
            is_canonical(r),
    {
        proof {
            use_type_invariant(&self);
        }
        self.value
    }
}

/// A page-aligned canonical virtual address, the start of one page.
#[derive(Debug, Clone, Copy, PartialEq, Eq, Structural)]
pub struct VirtPage {
    start: u64,
}

impl VirtPage {
    pub closed spec fn spec_start(self) -> u64 {
        self.start
    }

    #[verifier::type_invariant]
    pub closed spec fn aligned(self) -> bool {
        &&& is_canonical(self.start)
        &&& self.start % PAGE_SIZE == 0
    }

    /// The page that holds `address`: the address rounded down to a page boundary.
    pub fn containing(address: VirtAddr) -> (r: Self)
        ensures
            r.spec_start() == address.spec_value() - address.spec_value() % PAGE_SIZE,
    {
        let value = address.as_u64();
        Self { start: value - value % PAGE_SIZE }
    }

    /// Accepts a canonical page-aligned start address.
    pub fn from_start(start: u64) -> (r: Result<Self, AddressError>)
        ensures
            !is_canonical(start) ==> r == Err::<Self, AddressError>(AddressError::NonCanonical),
            is_canonical(start) && start % PAGE_SIZE != 0 ==> r == Err::<Self, AddressError>(
                AddressError::Unaligned,
            ),
            is_canonical(start) && start % PAGE_SIZE == 0 ==> (r matches Ok(p)
                && p.spec_start() == start),
    {
        if !(start < 0x40_0000_0000 || start >= 0xffff_ffc0_0000_0000) {
            Err(AddressError::NonCanonical)
        } else if start % PAGE_SIZE != 0 {
            Err(AddressError::Unaligned)
        } else {
            Ok(Self { start })
        }
    }

    pub fn start(self) -> (r: VirtAddr)
        ensures
            r.spec_value() == self.spec_start(),
            r.spec_value() % PAGE_SIZE == 0,
    {
        proof {
            use_type_invariant(&self);
        }
        VirtAddr { value: self.start }
    }
}

/// The permissions of a leaf page-table entry.
#[derive(Debug, Clone, Copy, PartialEq, Eq, Structural)]
pub struct PageFlags {
    read: bool,
    write: bool,
    execute: bool,
    user: bool,
}

impl PageFlags {
    pub closed spec fn spec_read(self) -> bool {
        self.read
    }

    pub closed spec fn spec_write(self) -> bool {
        self.write
    }

    pub closed spec fn spec_execute(self) -> bool {
        self.execute
    }

    pub closed spec fn spec_user(self) -> bool {
        self.user
    }

    /// Builds leaf permissions, refusing the combinations RISC-V reserves or
    /// that would make the entry a pointer to the next level.
    pub fn new(read: bool, write: bool, execute: bool, user: bool) -> (r: Result<Self, PteError>)
        ensures
            write && !read ==> r == Err::<Self, PteError>(PteError::WriteWithoutRead),
            !(write && !read) && !read && !execute ==> r == Err::<Self, PteError>(
                PteError::NotALeaf,
            ),
            !(write && !read) && (read || execute) ==> (r matches Ok(f) && f.spec_read()
                == read && f.spec_write() == write && f.spec_execute() == execute && f.spec_user()
                == user),
    {
        if write && !read {
            Err(PteError::WriteWithoutRead)
        } else if !read && !execute {
            Err(PteError::NotALeaf)
        } else {
            Ok(Self { read, write, execute, user })
        }
    }

    pub fn read(self) -> (r: bool)
        ensures
            r == self.spec_read(),
    {
        self.read
    }

    pub fn write(self) -> (r: bool)
        ensures
            r == self.spec_write(),
    {
        self.write
    }

    pub fn execute(self) -> (r: bool)
        ensures
            r == self.spec_execute(),
    {
        self.execute
    }

    pub fn user(self) -> (r: bool)
        ensures
            r == self.spec_user(),
    {
        self.user
    }
}

} // verus!
