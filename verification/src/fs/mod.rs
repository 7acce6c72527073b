//! File systems: the common interface, an in-memory file system and the
//! on-disk ext3 layout.

pub mod vfs;
pub mod ramfs;
pub mod ext3;
pub mod ext3_disk;
