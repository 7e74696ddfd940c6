//! Fixed values of the image catalogue and of downloaded files.

use vstd::prelude::*;

verus! {

/// Filter value that selects images without a preinstalled application.
pub const EMPTY_FILTER: &'static str = "__EMPTY__";

/// Repository of stable images.
pub const STABLE_REPO: &'static str = "archive";

/// Suffix of a file that is still being downloaded.
pub const DOWNLOAD_SUFFIX: &'static str = ".downloading";

} // verus!
