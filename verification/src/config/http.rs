//! Time limits of network requests.

use vstd::prelude::*;

verus! {

/// Seconds within which a connection has to be made.
pub const CONNECT_TIMEOUT_SECS: u64 = 30;

/// Seconds within which a request for metadata has to be answered in full.
pub const REQUEST_TIMEOUT_SECS: u64 = 300;

/// Seconds within which a small request, such as one for a digest file,
/// has to be answered.
pub const SHORT_TIMEOUT_SECS: u64 = 10;

} // verus!
