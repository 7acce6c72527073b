//! Verified core logic of a small x86_64 hobby kernel: network packet
//! formats and the TCP/DHCP protocol engines, in-memory and ext2/3 file
//! system logic, heap and frame allocators, input devices, console state,
//! the round-robin scheduler and the shell's parsers.

pub mod text;
pub mod net;
pub mod memory;
pub mod keyboard;
pub mod mouse;
pub mod rtc;
pub mod timer;
pub mod log;
pub mod cpu;
pub mod gdt;
pub mod idt;
pub mod fs;
pub mod shell;
pub mod vga;
pub mod scheduler;
pub mod serial;
pub mod ata;
pub mod arch;
