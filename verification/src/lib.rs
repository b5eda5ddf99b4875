//! Memory-management core of a small freestanding kernel: a bitmap allocator
//! for physical frames, a first-fit free-list heap, and the planning half of
//! the virtual memory mapper; with them the keyboard decoder, the bitmap font
//! reader, the framebuffer and the text console that the kernel shows itself
//! on.

pub mod allocator_types;
pub mod apic;
pub mod console;
pub mod framebuffer;
pub mod keyboard;
pub mod memory;
pub mod memory_map;
pub mod psfparser;
pub mod virtualmapper;
