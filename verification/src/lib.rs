//! Physical memory management for a Cortex-A8 board: the board's memory map,
//! the bounds of the loaded kernel image and a bitmap allocator over the
//! 4 KiB frames of DRAM.

pub mod arch;
pub mod bsp;
pub mod kernel;
