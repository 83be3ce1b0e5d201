//! A minimal single-directory filesystem on a block-addressed disk image.
//!
//! The image is a flat sequence of bytes divided into blocks of
//! [`BLOCK_SIZE`] bytes. Block 0 holds the superblock with the allocation
//! bitmap, block 1 the directory, and every file owns one inode block plus
//! its data blocks. Every structure is specified by a mathematical model,
//! and every operation by a function on those models.

use vstd::prelude::*;

pub mod clock;
pub mod disk;
pub mod error;
pub mod fs;
pub mod inode;
pub mod persistence;
pub mod render;
pub mod root;
pub mod structures;
pub mod superblock;
pub mod theorems;

pub use disk::{Disk, DiskError, DiskResult};
pub use error::{TfsError, TfsResult};
pub use fs::{ReadDirEntry, TfsFs, TfsFsFile};
pub use inode::{INode, Stat};
pub use root::Root;
pub use superblock::SuperBlock;

verus! {

/// Size in bytes of every block on the device.
pub const BLOCK_SIZE: usize = 256;

/// Size in bytes of a device formatted with default settings.
pub const DEFAULT_DISK_SIZE: usize = 10240;

} // verus!
