//! The memory view that the network driver works with: physical memory is
//! mapped into virtual memory at a fixed offset.

use vstd::prelude::*;

verus! {

/// First address above the lower half of the canonical address space.
pub const LOWER_HALF_END: u64 = 0x0000_8000_0000_0000;

/// First address of the upper half of the canonical address space.
pub const UPPER_HALF_START: u64 = 0xffff_8000_0000_0000;

/// Whether `addr` is a canonical virtual address that is not null.
pub open spec fn is_mapped_address(addr: int) -> bool {
    0 < addr < LOWER_HALF_END || UPPER_HALF_START <= addr <= u64::MAX
}

/// The hardware abstraction that the network driver allocates through.
pub struct VirtioHal {
    physical_memory_offset: Option<u64>,
}

/// A hardware abstraction for a machine whose physical memory is mapped at
/// `physical_memory_offset`.
pub fn init(physical_memory_offset: u64) -> (hal: VirtioHal)
    ensures
        hal.offset() == Some(physical_memory_offset),
{
    VirtioHal { physical_memory_offset: Some(physical_memory_offset) }
}

impl VirtioHal {
    /// Where physical memory is mapped, once that is known.
    pub closed spec fn offset(&self) -> Option<u64> {
        self.physical_memory_offset
    }

    /// A hardware abstraction that does not know the mapping yet.
    pub fn new() -> (hal: Self)
        ensures
            hal.offset() == None::<u64>,
    {
        VirtioHal { physical_memory_offset: None }
    }

    /// Where physical memory is mapped, once that is known.
    pub fn physical_memory_offset(&self) -> (offset: Option<u64>)
        ensures
            offset == self.offset(),
    {
        self.physical_memory_offset
    }

    /// The virtual address at which the physical address `paddr` is mapped;
    /// `None` while the mapping is not known, and when the address would be
    /// null or outside the canonical address space.
    pub fn mmio_phys_to_virt(&self, paddr: u64) -> (vaddr: Option<u64>)
        ensures
            vaddr == match self.offset() {
                Some(offset) => if is_mapped_address(paddr + offset) {
                    Some((paddr + offset) as u64)
                } else {
                    None
                },
                None => None,
            },
    {
        match self.physical_memory_offset {
            Some(offset) => {
                if paddr > u64::MAX - offset {
                    return None;
                }
                let addr = paddr + offset;
                if addr == 0 || (addr >= LOWER_HALF_END && addr < UPPER_HALF_START) {
                    None
                } else {
                    Some(addr)
                }
            },
            None => None,
        }
    }
}

} // verus!
