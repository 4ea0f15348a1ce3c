//! Memory map of the board: where DRAM lies and where the devices are mapped.
//!
//! Another board is supported by exchanging this set of constants.

use vstd::prelude::*;

verus! {

/// Address of the first byte of DRAM.
pub const DRAM_START: u32 = 0x8000_0000;

/// Address of the last byte of DRAM.
pub const DRAM_END: u32 = 0x8FFF_FFFF;

/// Size of DRAM in bytes.
pub const DRAM_SIZE: u32 = DRAM_END - DRAM_START + 1;

/// Size of DRAM in KiB.
pub const DRAM_SIZE_KB: u32 = DRAM_SIZE / 1024;

/// Size of DRAM in MiB.
pub const DRAM_SIZE_MB: u32 = DRAM_SIZE_KB / 1024;

/// Base of the registers of the serial port.
pub const UART_BASE: u32 = 0x44E0_9000;

/// Base of the registers of the watchdog timer.
pub const WATCHDOG_BASE: u32 = 0x44E3_5000;

/// Base of the registers of the timer.
pub const TIMER_BASE: u32 = 0x44E0_5000;

/// The sizes derived from the bounds of DRAM, as numbers.
pub proof fn lemma_dram_sizes()
    ensures
        DRAM_SIZE == 0x1000_0000,
        DRAM_SIZE_KB == 0x4_0000,
        DRAM_SIZE_MB == 256,
        DRAM_START % 4096 == 0,
        DRAM_SIZE % 4096 == 0,
        DRAM_START + DRAM_SIZE <= 0x1_0000_0000,
{
}

} // verus!
