//! The verified core of a small kernel.
//!
//! `allocator` holds the dynamic memory management: a bump allocator and a
//! first-fit free-list allocator over one fixed heap region, the address
//! arithmetic they share, and the lock through which the kernel reaches
//! them. `devices` holds the state of the text screen and the values that
//! drive the speaker, and `user` what the demonstration programs decide.
//! Port and memory access are left to the kernel around this crate.

pub mod allocator;
pub mod devices;
pub mod user;
