//! One image-bearing cell within a shelf, representing one catalog item.

use vstd::prelude::*;

use crate::geom::{Rect, RectV};
use crate::layout::{
    COORD_BOUND, MAX_DIM, MAX_TILE_W, SELECT_GROW_H, SELECT_GROW_W, SELECT_SHIFT_X,
    SELECT_SHIFT_Y, ASPECT_DEN, ASPECT_NUM, default_size_label, tile_default_width,
};
use crate::model::ContentSetItem;

verus! {

/// Mathematical value of a [`ShelfTile`].
pub struct TileV {
    pub img: Option<bytes::Bytes>,
    pub url: Seq<char>,
    pub rect: RectV,
    pub selected: bool,
    pub default_width: int,
    pub default_height: int,
}

impl TileV {
    /// The x position the tile would have if it were not selected.
    /// Selection shifts the corner left by a fixed delta and reverts it
    /// on deselect, so this is the stable part of the position.
    pub open spec fn base_x(self) -> int {
        if self.selected {
            self.rect.x + SELECT_SHIFT_X as int
        } else {
            self.rect.x
        }
    }

    /// The y position the tile would have if it were not selected.
    pub open spec fn base_y(self) -> int {
        if self.selected {
            self.rect.y + SELECT_SHIFT_Y as int
        } else {
            self.rect.y
        }
    }

    /// Validity: the rectangle extent is the default one, enlarged by the
    /// fixed deltas exactly while selected, and the corner stays within
    /// bounds that keep all geometry arithmetic inside `i32`.
    pub open spec fn wf(self) -> bool {
        &&& 0 <= self.default_width <= MAX_TILE_W as int
        &&& 0 <= self.default_height <= MAX_DIM as int
        &&& (self.selected ==> self.rect.width == self.default_width + SELECT_GROW_W as int
            && self.rect.height == self.default_height + SELECT_GROW_H as int)
        &&& (!self.selected ==> self.rect.width == self.default_width
            && self.rect.height == self.default_height)
        &&& -(COORD_BOUND as int) <= self.base_x() <= COORD_BOUND as int
        &&& -(COORD_BOUND as int) <= self.base_y() <= COORD_BOUND as int
    }
}

/// What `select` does: a no-op on a selected tile, else the fixed
/// enlargement of the rectangle.
pub open spec fn tile_select_spec(t: TileV) -> TileV {
    if t.selected {
        t
    } else {
        TileV {
            selected: true,
            rect: RectV {
                x: t.rect.x - SELECT_SHIFT_X as int,
                y: t.rect.y - SELECT_SHIFT_Y as int,
                width: t.rect.width + SELECT_GROW_W as int,
                height: t.rect.height + SELECT_GROW_H as int,
            },
            ..t
        }
    }
}

/// What `unselect` does: a no-op on an unselected tile, else the exact
/// reversion to the default extent.
pub open spec fn tile_unselect_spec(t: TileV) -> TileV {
    if !t.selected {
        t
    } else {
        TileV {
            selected: false,
            rect: RectV {
                x: t.rect.x + SELECT_SHIFT_X as int,
                y: t.rect.y + SELECT_SHIFT_Y as int,
                width: t.default_width,
                height: t.default_height,
            },
            ..t
        }
    }
}

/// The tile created for `item` at the given position: no image yet, the
/// URL registered for the default size label, and the default extent
/// derived from the height by the fixed aspect ratio.
pub open spec fn tile_load_spec(item: ContentSetItem, x: int, y: int, height: int) -> TileV {
    TileV {
        img: None,
        url: item.spec_tile_image_url(default_size_label())->Some_0,
        rect: RectV { x, y, width: tile_default_width(height), height },
        selected: false,
        default_width: tile_default_width(height),
        default_height: height,
    }
}

/// An individual tile on a shelf, holding the originating image URL, the
/// fetched payload once it has arrived, and its current rectangle.
pub struct ShelfTile {
    img_raw: Option<bytes::Bytes>,
    img_url: String,
    rect: Rect,
    selected: bool,
    default_width: u32,
    default_height: u32,
}

impl View for ShelfTile {
    type V = TileV;

    closed spec fn view(&self) -> TileV {
        TileV {
            img: self.img_raw,
            url: self.img_url@,
            rect: self.rect@,
            selected: self.selected,
            default_width: self.default_width as int,
            default_height: self.default_height as int,
        }
    }
}

impl ShelfTile {
    /// Creates the tile for one catalog item.  The item must have an
    /// image URL registered for the default size label.
    pub fn load(item: &ContentSetItem, x: i32, y: i32, height: u32) -> (r: ShelfTile)
        requires
            item.spec_tile_image_url(default_size_label()) is Some,
            height <= MAX_DIM,
            -(COORD_BOUND as int) <= x as int <= COORD_BOUND as int,
            -(COORD_BOUND as int) <= y as int <= COORD_BOUND as int,
        ensures
            r@ == tile_load_spec(*item, x as int, y as int, height as int),
            r@.wf(),
    {
        let default_width: u32 = ((height as u64) * (ASPECT_NUM as u64) / (ASPECT_DEN as u64)) as u32;
        let default_height: u32 = height;
        let img_url: String = match item.tile_image_url("1.78") {
            Some(u) => u.clone(),
            None => vstd::pervasive::unreached(),
        };
        ShelfTile {
            img_raw: None,
            img_url,
            rect: Rect::new(x, y, default_width, default_height),
            selected: false,
            default_width,
            default_height,
        }
    }

    /// Attaches the fetched payload.  This is the only transition from
    /// placeholder to image, and it never reverts.
    pub fn set_img(&mut self, bytes: bytes::Bytes)
        ensures
            final(self)@ == (TileV { img: Some(bytes), ..old(self)@ }),
    {
        self.img_raw = Some(bytes);
    }

    /// The payload attached so far, if any.
    pub fn image(&self) -> (r: &Option<bytes::Bytes>)
        ensures
            r == &self@.img,
    {
        &self.img_raw
    }

    pub fn image_url(&self) -> (r: &String)
        ensures
            r@ == self@.url,
    {
        &self.img_url
    }

    pub fn set_x(&mut self, new_x: i32)
        ensures
            final(self)@ == (TileV { rect: RectV { x: new_x as int, ..old(self)@.rect }, ..old(self)@ }),
    {
        self.rect.set_x(new_x);
    }

    pub fn x(&self) -> (r: i32)
        ensures
            r == self@.rect.x,
    {
        self.rect.x()
    }

    pub fn set_y(&mut self, new_y: i32)
        ensures
            final(self)@ == (TileV { rect: RectV { y: new_y as int, ..old(self)@.rect }, ..old(self)@ }),
    {
        self.rect.set_y(new_y);
    }

    pub fn y(&self) -> (r: i32)
        ensures
            r == self@.rect.y,
    {
        self.rect.y()
    }

    pub fn left(&self) -> (r: i32)
        ensures
            r == self@.rect.x,
    {
        self.rect.left()
    }

    pub fn right(&self) -> (r: i32)
        requires
            self@.rect.width <= i32::MAX,
            self@.rect.x + self@.rect.width <= i32::MAX,
        ensures
            r == self@.rect.x + self@.rect.width,
    {
        self.rect.right()
    }

    pub fn height(&self) -> (r: u32)
        ensures
            r == self@.rect.height,
    {
        self.rect.height()
    }

    pub fn width(&self) -> (r: u32)
        ensures
            r == self@.rect.width,
    {
        self.rect.width()
    }

    pub fn selected(&self) -> (r: bool)
        ensures
            r == self@.selected,
    {
        self.selected
    }

    /// Whether the tile's rectangle overlaps the viewport horizontally;
    /// only such tiles are submitted for drawing.
    pub fn in_horizontal_view(&self, viewport_right: i32) -> (r: bool)
        requires
            self@.wf(),
        ensures
            r == (self@.rect.x + self@.rect.width >= 0 && self@.rect.x <= viewport_right as int),
    {
        self.right() >= 0 && self.left() <= viewport_right
    }

    /// Enlarges the rectangle by the fixed deltas; a no-op if the tile is
    /// already selected.
    pub fn select(&mut self)
        requires
            old(self)@.wf(),
        ensures
            final(self)@ == tile_select_spec(old(self)@),
            final(self)@.wf(),
    {
        if !self.selected {
            self.selected = true;

            let new_width = self.rect.width() + SELECT_GROW_W;
            let new_height = self.rect.height() + SELECT_GROW_H;
            let new_x = self.rect.x() - SELECT_SHIFT_X;
            let new_y = self.rect.y() - SELECT_SHIFT_Y;

            self.rect.set_x(new_x);
            self.rect.set_y(new_y);
            self.rect.set_height(new_height);
            self.rect.set_width(new_width);
        }
    }

    /// Reverts the rectangle to the default extent; a no-op if the tile
    /// is not selected.
    pub fn unselect(&mut self)
        requires
            old(self)@.wf(),
        ensures
            final(self)@ == tile_unselect_spec(old(self)@),
            final(self)@.wf(),
    {
        if self.selected {
            self.selected = false;

            let new_x = self.rect.x() + SELECT_SHIFT_X;
            let new_y = self.rect.y() + SELECT_SHIFT_Y;
            self.rect.set_x(new_x);
            self.rect.set_y(new_y);
            self.rect.set_height(self.default_height);
            self.rect.set_width(self.default_width);
        }
    }
}

/// Selecting is idempotent: a second select changes nothing.
pub proof fn lemma_select_idempotent(t: TileV)
    ensures
        tile_select_spec(tile_select_spec(t)) == tile_select_spec(t),
{
}

/// Unselecting is idempotent: a second unselect changes nothing.
pub proof fn lemma_unselect_idempotent(t: TileV)
    ensures
        tile_unselect_spec(tile_unselect_spec(t)) == tile_unselect_spec(t),
{
}

/// Round-trip geometry: on a valid unselected tile, select followed by
/// unselect restores the tile, its rectangle included, exactly.
pub proof fn lemma_select_unselect_round_trip(t: TileV)
    requires
        t.wf(),
        !t.selected,
    ensures
        tile_unselect_spec(tile_select_spec(t)) == t,
{
}

/// The mirror round trip: on a valid selected tile, unselect followed
/// by select restores the tile exactly.
pub proof fn lemma_unselect_select_round_trip(t: TileV)
    requires
        t.wf(),
        t.selected,
    ensures
        tile_select_spec(tile_unselect_spec(t)) == t,
{
}

} // verus!
