//! Sizes within which a device is offered as a target.

use vstd::prelude::*;

verus! {

/// Devices below 1 GiB are not offered.
pub const MIN_SIZE_BYTES: u64 = 1024 * 1024 * 1024;

/// Removable media above 2 TiB are not offered.
pub const MAX_SIZE_BYTES: u64 = 2 * 1024 * 1024 * 1024 * 1024;

} // verus!
