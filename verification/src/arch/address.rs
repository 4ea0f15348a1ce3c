//! Addresses of the 32-bit address space, physical and virtual, kept apart
//! by their types.

use vstd::prelude::*;

verus! {

/// An address in physical memory.
#[derive(Copy, Clone, Debug)]
pub struct PhysicalAddress(u32);

impl View for PhysicalAddress {
    type V = u32;

    closed spec fn view(&self) -> u32 {
        self.0
    }
}

impl PhysicalAddress {
    /// The physical address with the number `addr`.
    pub fn new(addr: u32) -> (r: PhysicalAddress)
        ensures
            r@ == addr,
    {
        PhysicalAddress(addr)
    }

    /// The number of the address.
    pub fn as_u32(self) -> (r: u32)
        ensures
            r == self@,
    {
        self.0
    }
}

/// An address in virtual memory.
#[derive(Copy, Clone, Debug)]
pub struct VirtualAddress(u32);

impl View for VirtualAddress {
    type V = u32;

    closed spec fn view(&self) -> u32 {
        self.0
    }
}

impl VirtualAddress {
    /// The virtual address with the number `addr`.
    pub fn new(addr: u32) -> (r: VirtualAddress)
        ensures
            r@ == addr,
    {
        VirtualAddress(addr)
    }

    /// The number of the address.
    pub fn as_u32(self) -> (r: u32)
        ensures
            r == self@,
    {
        self.0
    }
}

} // verus!
