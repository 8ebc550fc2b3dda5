//! Memory-management core of a small x86-64 kernel, together with the
//! kernel's other pure data structures (FAT file systems, framebuffer
//! drawing, GUI node tree).
//!
//! Physical memory, page tables and the framebuffer are modelled as owned
//! data: a page table owns its child tables, a framebuffer owns its pixel
//! buffer, a disk is a trait over sector reads and writes.  The hardware
//! edges (port I/O, control registers, the TLB) live outside this crate;
//! they hand these types plain values and take plain values back.

pub mod flags;
pub mod frame;
pub mod frame_alloc;
pub mod page;
pub mod table;
pub mod mapper;
pub mod remap;
pub mod heap;
pub mod fat32;
pub mod framebuffer;
pub mod gui;
pub mod fat16;
pub mod fs;
pub mod vga_buffer;
pub mod kernel_types;
pub mod mouse;
pub mod shell;
