//! Device state that the kernel keeps in memory.

pub mod cga;
pub mod pcspk;
