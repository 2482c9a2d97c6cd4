//! The heap allocators and the address arithmetic they share.

pub mod align;
pub mod layout;
pub mod bump;
pub mod arena;
pub mod free_list;
pub mod heap;
pub mod list;
pub mod reuse;
pub mod locked;
