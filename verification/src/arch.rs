//! What depends on the processor architecture: addresses, the errors of the
//! paging layer and the bookkeeping of physical memory.

pub mod address;
pub mod bitmap;
pub mod cpuinfo;
pub mod memory;
pub mod memory_lemmas;
pub mod paging;
