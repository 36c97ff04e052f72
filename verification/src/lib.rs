//! Memory- and fault-management core of a small x86-64 kernel.
//!
//! The crate verifies the logic of the kernel's boot-critical pieces: the
//! physical frame allocator built from a boot-time memory map, the
//! physical-to-virtual address translator, the four-level page mapper, the
//! interrupt-descriptor-table layout with its dedicated double-fault stack,
//! and the text console's character grid. The hardware itself (volatile
//! video memory, control registers, descriptor-table loads, port output) is
//! driven by a thin unverified shell around this crate.

pub mod console;
pub mod interrupts;
pub mod memory;
pub mod paging;
pub mod qemu;
