//! Limits of the image cache.

use vstd::prelude::*;

verus! {

/// Smallest cache limit that can be set: 1 GiB.
pub const MIN_SIZE: u64 = 1024 * 1024 * 1024;

/// Largest cache limit that can be set: 100 GiB.
pub const MAX_SIZE: u64 = 100 * 1024 * 1024 * 1024;

/// Cache limit when none was set: 20 GiB.
pub const DEFAULT_MAX_SIZE: u64 = 20 * 1024 * 1024 * 1024;

/// Consecutive failed flashes after which a cached image is dropped.
pub const MAX_FLASH_FAILURES: u32 = 3;

} // verus!
