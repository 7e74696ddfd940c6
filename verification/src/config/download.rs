//! Buffer sizes of the download and decompression steps.

use vstd::prelude::*;

verus! {

/// Bytes taken from the network per step: 1 MiB.
pub const BUFFER_SIZE: usize = 1024 * 1024;

/// Bytes hashed per step when a download is checked: 8 KiB.
pub const HASH_BUFFER_SIZE: usize = 8192;

/// Bytes buffered in front of a decoder: 8 MiB.
pub const DECOMPRESS_BUFFER_SIZE: usize = 8 * 1024 * 1024;

/// Bytes moved per step while decompressing: 4 MiB.
pub const CHUNK_SIZE: usize = 4 * 1024 * 1024;

} // verus!
