//! What the status report says about the processor, from the bits of its
//! system control register.

use vstd::prelude::*;

verus! {

/// Where the exception vectors lie while the high vectors are switched on.
pub const HIGH_VECTORS: u32 = 0xffff_ff00;

/// The bits of the system control register that the report reads.
#[derive(Copy, Clone, Debug)]
pub struct ControlBits {
    /// The memory management unit is switched on.
    pub mmu: bool,
    /// The exception vectors lie at the high address.
    pub hivecs: bool,
    /// Exceptions are taken in big endian.
    pub exception_endian: bool,
    /// The remapping of the memory type bits is switched on.
    pub tex_remap: bool,
}

/// The status report: one text for each thing that it states. The texts on
/// the endianness and on the instruction set together make one line.
#[derive(Copy, Clone, Debug)]
pub struct StatusReport {
    /// On the memory management unit.
    pub mmu: &'static str,
    /// On the place of the exception vectors.
    pub hivecs: &'static str,
    /// On the endianness in which exceptions are taken.
    pub endianness: &'static str,
    /// On the instruction set in which exceptions are taken.
    pub instruction_set: &'static str,
    /// On the remapping of the memory type bits.
    pub tex_remap: &'static str,
}

/// The texts of the status report for the given bits. The text on the
/// instruction set goes by the bit for the endianness, as that on the
/// endianness does.
pub fn status_report(bits: &ControlBits) -> (r: StatusReport)
    ensures
        r.mmu@ == if bits.mmu {
            "MMU is on."@
        } else {
            "MMU is off."@
        },
        r.hivecs@ == if bits.hivecs {
            "Hivecs are on."@
        } else {
            "Hivecs are off."@
        },
        r.endianness@ == if bits.exception_endian {
            "Exceptions are taken in big endian "@
        } else {
            "Exceptions are taken in little endian "@
        },
        r.instruction_set@ == if bits.exception_endian {
            "and in thumb mode."@
        } else {
            "and in arm mode."@
        },
        r.tex_remap@ == if bits.tex_remap {
            "Tex Remap enabled."@
        } else {
            "Tex Remap disabled."@
        },
{
    StatusReport {
        mmu: if bits.mmu {
            "MMU is on."
        } else {
            "MMU is off."
        },
        hivecs: if bits.hivecs {
            "Hivecs are on."
        } else {
            "Hivecs are off."
        },
        endianness: if bits.exception_endian {
            "Exceptions are taken in big endian "
        } else {
            "Exceptions are taken in little endian "
        },
        instruction_set: if bits.exception_endian {
            "and in thumb mode."
        } else {
            "and in arm mode."
        },
        tex_remap: if bits.tex_remap {
            "Tex Remap enabled."
        } else {
            "Tex Remap disabled."
        },
    }
}

/// Where the table of exception vectors lies: at the high vectors where
/// these are switched on, else where the vector base register `vbar` points.
pub fn vector_table_address(hivecs: bool, vbar: u32) -> (r: u32)
    ensures
        r == if hivecs {
            HIGH_VECTORS
        } else {
            vbar
        },
{
    if hivecs {
        0xffff_ff00
    } else {
        vbar
    }
}

} // verus!
