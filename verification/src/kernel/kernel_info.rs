//! The bounds of the kernel image, as the linker placed them, and the sizes
//! that follow from them.

use vstd::prelude::*;
use crate::arch::address::VirtualAddress;
use crate::bsp::memory_map::DRAM_SIZE;

verus! {

/// The addresses of the symbols that the linker puts at the bounds of the
/// sections of the kernel image.
#[derive(Copy, Clone, Debug)]
pub struct KernelImage {
    /// Where the kernel starts in virtual memory.
    pub vmem_start: u32,
    /// Start of the code and the read-only data.
    pub ro_start: u32,
    /// End of the code and the read-only data.
    pub ro_end: u32,
    /// Start of the initialised data.
    pub data_start: u32,
    /// End of the initialised data.
    pub data_end: u32,
    /// Start of the data that starts out as zero.
    pub bss_start: u32,
    /// End of the data that starts out as zero, and of the image.
    pub bss_end: u32,
}

impl KernelImage {
    /// The bounds are those of a loaded image: the image starts with the
    /// code, ends with the zeroed data and lies in the memory of the kernel,
    /// no section ends before it starts, and the memory of the kernel is no
    /// larger than DRAM.
    pub open spec fn well_formed(&self) -> bool {
        &&& self.vmem_start <= self.ro_start
        &&& self.ro_start <= self.ro_end <= self.bss_end
        &&& self.ro_start <= self.data_start <= self.data_end <= self.bss_end
        &&& self.ro_start <= self.bss_start <= self.bss_end
        &&& self.bss_end - self.vmem_start <= DRAM_SIZE
    }

    /// Tests whether the bounds are those of a loaded image.
    pub fn is_well_formed(&self) -> (r: bool)
        ensures
            r == self.well_formed(),
    {
        self.vmem_start <= self.ro_start && self.ro_start <= self.ro_end && self.ro_end
            <= self.bss_end && self.ro_start <= self.data_start && self.data_start
            <= self.data_end && self.data_end <= self.bss_end && self.ro_start <= self.bss_start
            && self.bss_start <= self.bss_end && self.bss_end - self.vmem_start <= DRAM_SIZE
    }
}

/// The number of bytes from `start` to `end`.
fn diff(end: u32, start: u32) -> (r: isize)
    requires
        start <= end,
        end - start <= DRAM_SIZE,
    ensures
        r == end - start,
{
    (end - start) as isize
}

/// Where the kernel starts in virtual memory.
pub fn kernel_start(image: &KernelImage) -> (r: VirtualAddress)
    ensures
        r@ == image.vmem_start,
{
    VirtualAddress::new(image.vmem_start)
}

/// The memory that the kernel occupies, in bytes: from its start in virtual
/// memory to the end of the image.
pub fn kernel_memory_size(image: &KernelImage) -> (r: isize)
    requires
        image.well_formed(),
    ensures
        r == image.bss_end - image.vmem_start,
        0 <= r <= DRAM_SIZE,
{
    diff(image.bss_end, image.vmem_start)
}

/// The size of the whole image in bytes, from the start of the code to the
/// end of the zeroed data.
pub fn kernel_size(image: &KernelImage) -> (r: isize)
    requires
        image.well_formed(),
    ensures
        r == image.bss_end - image.ro_start,
        r >= 0,
{
    diff(image.bss_end, image.ro_start)
}

/// The size in bytes of what is loaded of the image: code and data, without
/// the zeroed data.
pub fn kernel_size_loaded(image: &KernelImage) -> (r: isize)
    requires
        image.well_formed(),
    ensures
        r == image.data_end - image.ro_start,
        r >= 0,
{
    diff(image.data_end, image.ro_start)
}

/// The size in bytes of the code and the read-only data.
pub fn text_size(image: &KernelImage) -> (r: isize)
    requires
        image.well_formed(),
    ensures
        r == image.ro_end - image.ro_start,
        r >= 0,
{
    diff(image.ro_end, image.ro_start)
}

/// The size in bytes of the initialised data.
pub fn data_size(image: &KernelImage) -> (r: isize)
    requires
        image.well_formed(),
    ensures
        r == image.data_end - image.data_start,
        r >= 0,
{
    diff(image.data_end, image.data_start)
}

/// The size in bytes of the data that starts out as zero.
pub fn bss_size(image: &KernelImage) -> (r: isize)
    requires
        image.well_formed(),
    ensures
        r == image.bss_end - image.bss_start,
        r >= 0,
{
    diff(image.bss_end, image.bss_start)
}

} // verus!
