//! Names under which the application presents itself.

use vstd::prelude::*;

verus! {

/// Name of the application's directories.
pub const NAME: &'static str = "armbian-imager";

/// Name shown to the user.
pub const DISPLAY_NAME: &'static str = "Armbian Imager";

/// User agent of the application's HTTP requests.
pub const USER_AGENT: &'static str = "Armbian-Imager/1.0";

} // verus!
