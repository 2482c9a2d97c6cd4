//! What the kernel's demonstration programs decide.

pub mod keyboard_demo;
