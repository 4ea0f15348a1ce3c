//! Board support.

pub mod memory_map;
