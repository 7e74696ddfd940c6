//! Addresses that the application talks to.

use vstd::prelude::*;

verus! {

/// Catalogue of all images.
pub const ALL_IMAGES: &'static str = "https://github.armbian.com/armbian-images.json";

/// Where pictures of boards lie, by width and board.
pub const BOARD_IMAGES_BASE: &'static str = "https://cache.armbian.com/images/";

/// Width in pixels of the pictures of boards.
pub const BOARD_IMAGE_SIZE: &'static str = "272";

} // verus!
