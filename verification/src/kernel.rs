//! What the kernel knows about itself.

pub mod console;
pub mod kernel_info;
