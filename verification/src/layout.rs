//! Fixed layout parameters and the bounds under which all geometry
//! arithmetic stays within `i32`.

use vstd::prelude::*;

verus! {

/// Width added to a tile's rectangle while it is selected.
pub const SELECT_GROW_W: u32 = 36;

/// Height added to a tile's rectangle while it is selected.
pub const SELECT_GROW_H: u32 = 20;

/// Leftward shift of a tile's corner while it is selected.
pub const SELECT_SHIFT_X: i32 = 18;

/// Upward shift of a tile's corner while it is selected.
pub const SELECT_SHIFT_Y: i32 = 10;

/// Numerator of the fixed tile aspect ratio.
pub const ASPECT_NUM: u32 = 178;

/// Denominator of the fixed tile aspect ratio.
pub const ASPECT_DEN: u32 = 100;

/// The fixed width of a shelf's own rectangle.
pub const SHELF_WIDTH: u32 = 1920;

/// Gap between a shelf's label and the top edge of its tiles.
pub const LABEL_GAP: i32 = 10;

/// Largest accepted shelf height or padding, in pixels.
pub const MAX_DIM: u32 = 10_000;

/// Largest accepted number of shelves, or of tiles per shelf.
pub const MAX_COUNT: usize = 10_000;

/// Largest accepted label height.
pub const MAX_LABEL_HEIGHT: u32 = 65_536;

/// Bound on the y position a shelf can be moved to.
pub const ROW_Y_BOUND: i32 = 300_000_000;

/// Bound on tile corner coordinates; all reachable positions stay within
/// it, with room for the selection shift.
pub const COORD_BOUND: i32 = 400_000_000;

/// Largest default tile width that a shelf within bounds can produce.
pub const MAX_TILE_W: u32 = 20_000;

/// The size label that shelf tiles are keyed by.
pub open spec fn default_size_label() -> Seq<char> {
    "1.78"@
}

/// The default width of a tile of the given height, under the fixed
/// aspect ratio.
pub open spec fn tile_default_width(height: int) -> int {
    height * (ASPECT_NUM as int) / (ASPECT_DEN as int)
}

} // verus!
