//! Sizes of the flash operation.

use vstd::prelude::*;

verus! {

/// Bytes written per step: 4 MiB.
pub const CHUNK_SIZE: usize = 4 * 1024 * 1024;

/// Bytes zeroed at the start of the device before writing: 10 MiB.
pub const QUICK_ERASE_SIZE: usize = 10 * 1024 * 1024;

/// Bytes of zeros written per step while erasing: 1 MiB.
pub const ERASE_CHUNK_SIZE: usize = 1024 * 1024;

/// Bytes after which a flush to the medium is forced: 32 MiB.
pub const SYNC_INTERVAL: u64 = 32 * 1024 * 1024;

/// Smallest and largest plausible sector size of a device, and the size
/// assumed when the device does not tell.
pub const MIN_SECTOR_SIZE: usize = 512;

pub const MAX_SECTOR_SIZE: usize = 8192;

pub const DEFAULT_SECTOR_SIZE: usize = 512;

} // verus!
