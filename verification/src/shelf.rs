//! A shelf: one horizontally-scrollable row of tiles, formed from one
//! content set.
//!
//! The shelf owns the row's geometry.  Tiles are laid out left to right
//! with a fixed padding; directional input pans them and moves the
//! selected index; an arriving image event is routed to the tile whose
//! stored URL matches.

use vstd::prelude::*;

use crate::event::ImageLoadEvent;
use crate::geom::{Rect, RectV};
use crate::layout::{
    default_size_label, tile_default_width, COORD_BOUND, LABEL_GAP, MAX_COUNT, MAX_DIM,
    MAX_LABEL_HEIGHT, MAX_TILE_W, ROW_Y_BOUND, SELECT_GROW_W, SELECT_SHIFT_X, SHELF_WIDTH,
};
use crate::model::ContentSet;
use crate::tile::{
    lemma_select_unselect_round_trip, lemma_unselect_select_round_trip, tile_load_spec,
    tile_select_spec, tile_unselect_spec, ShelfTile, TileV,
};

verus! {

/// Mathematical value of a [`Shelf`].
pub struct ShelfV {
    pub title: Seq<char>,
    pub height: int,
    pub selected: bool,
    pub tiles: Seq<TileV>,
    pub selected_tile: int,
    pub padding: int,
    pub rect: RectV,
    pub content_set: ContentSet,
    pub label_height: Option<int>,
}

impl ShelfV {
    /// The default width shared by all tiles of this shelf.
    pub open spec fn tile_w(self) -> int {
        tile_default_width(self.height - self.padding)
    }

    /// The horizontal distance between two neighbouring tile corners in
    /// the initial layout.
    pub open spec fn step(self) -> int {
        self.tile_w() + self.padding
    }

    /// The base x position of tile `k` in any reachable state, a closed
    /// form over the selected index: the initial layout while the
    /// selection is at 0; after the first move everything sits half a
    /// tile left of the origin, with tiles before the window parked at
    /// the same spot.
    pub open spec fn expected_tile_x(self, k: int) -> int {
        if self.selected_tile == 0 {
            self.padding + k * self.step()
        } else if k <= self.selected_tile - 2 {
            -(self.tile_w() / 2) - self.padding
        } else {
            -(self.tile_w() / 2) + (k - (self.selected_tile - 1)) * self.step()
        }
    }

    /// Validity of a shelf: the selected index is in bounds, exactly the
    /// current tile of a selected shelf is enlarged, every tile has the
    /// shared default extent, and every base x position matches the
    /// closed form.
    pub open spec fn wf(self) -> bool {
        &&& 0 <= self.padding <= MAX_DIM as int
        &&& self.padding <= self.height <= MAX_DIM as int
        &&& self.tiles.len() <= MAX_COUNT as int
        &&& (self.tiles.len() == 0 ==> self.selected_tile == 0 && !self.selected)
        &&& (self.tiles.len() > 0 ==> 0 <= self.selected_tile < self.tiles.len())
        &&& (forall|k: int| 0 <= k < self.tiles.len() ==> (#[trigger] self.tiles[k]).wf())
        &&& (forall|k: int| 0 <= k < self.tiles.len()
            ==> ((#[trigger] self.tiles[k]).selected <==> (self.selected && k == self.selected_tile)))
        &&& (forall|k: int| 0 <= k < self.tiles.len()
            ==> (#[trigger] self.tiles[k]).default_width == self.tile_w())
        &&& (forall|k: int| 0 <= k < self.tiles.len()
            ==> (#[trigger] self.tiles[k]).default_height == self.height - self.padding)
        &&& (forall|k: int| 0 <= k < self.tiles.len()
            ==> (#[trigger] self.tiles[k]).base_x() == self.expected_tile_x(k))
        &&& self.rect.x == self.padding
        &&& self.rect.width == SHELF_WIDTH as int
        &&& self.rect.height == self.height
        &&& -(ROW_Y_BOUND as int) <= self.rect.y <= ROW_Y_BOUND as int
        &&& (match self.label_height {
            Some(lh) => 0 <= lh <= MAX_LABEL_HEIGHT as int,
            None => true,
        })
    }
}

/// `t` with its corner moved to `x`.
pub open spec fn tile_with_x(t: TileV, x: int) -> TileV {
    TileV { rect: RectV { x, ..t.rect }, ..t }
}

/// `t` with its corner moved to `y`.
pub open spec fn tile_with_y(t: TileV, y: int) -> TileV {
    TileV { rect: RectV { y, ..t.rect }, ..t }
}

/// The pan applied when the selection leaves position 0 rightwards:
/// every tile moves left by half its own width plus the padding, so the
/// first tile is never fully hidden.
pub open spec fn half_shift_left_tiles(t1: Seq<TileV>, pad: int) -> Seq<TileV> {
    Seq::new(t1.len(), |k: int| tile_with_x(t1[k], t1[k].rect.x - t1[k].rect.width / 2 - pad))
}

/// The standard one-tile pan rightwards: every tile takes the position
/// of its predecessor, and the first is parked half a width left of the
/// origin.
pub open spec fn pan_left_tiles(t1: Seq<TileV>, pad: int) -> Seq<TileV> {
    Seq::new(
        t1.len(),
        |k: int|
            tile_with_x(
                t1[k],
                if k == 0 {
                    -(t1[0].rect.width / 2) - pad
                } else {
                    t1[k - 1].rect.x
                },
            ),
    )
}

/// The mirror of [`half_shift_left_tiles`], applied when the selection
/// returns to position 0.
pub open spec fn half_shift_right_tiles(t1: Seq<TileV>, pad: int) -> Seq<TileV> {
    Seq::new(t1.len(), |k: int| tile_with_x(t1[k], t1[k].rect.x + t1[k].rect.width / 2 + pad))
}

/// The standard one-tile pan leftwards: every tile takes the position of
/// its successor, and the last moves one slot past its own old position.
pub open spec fn pan_right_tiles(t1: Seq<TileV>, pad: int) -> Seq<TileV> {
    Seq::new(
        t1.len(),
        |k: int|
            tile_with_x(
                t1[k],
                if k == t1.len() - 1 {
                    t1[k].rect.x + t1[k].rect.width + pad
                } else {
                    t1[k + 1].rect.x
                },
            ),
    )
}

/// The current tile reverted to its default extent, leaving every tile
/// of the shelf unselected.
pub open spec fn shelf_deselected_tiles(s: ShelfV) -> Seq<TileV> {
    s.tiles.update(s.selected_tile, tile_unselect_spec(s.tiles[s.selected_tile]))
}

/// The tiles after a rightward move's pan, before the new tile is
/// selected: the half shift when the selection leaves position 0, the
/// one-tile pan otherwise.
pub open spec fn right_mid_tiles(s: ShelfV) -> Seq<TileV> {
    let t1 = shelf_deselected_tiles(s);
    if s.selected_tile == 0 {
        half_shift_left_tiles(t1, s.padding)
    } else {
        pan_left_tiles(t1, s.padding)
    }
}

/// The tiles after a leftward move's pan, before the new tile is
/// selected: the half shift when the selection returns to position 0,
/// the one-tile pan otherwise.
pub open spec fn left_mid_tiles(s: ShelfV) -> Seq<TileV> {
    let t1 = shelf_deselected_tiles(s);
    if s.selected_tile == 1 {
        half_shift_right_tiles(t1, s.padding)
    } else {
        pan_right_tiles(t1, s.padding)
    }
}

/// What a rightward key does to a selected shelf: nothing at the last
/// tile; otherwise unselect the current tile, pan, and select the next.
pub open spec fn shelf_right_spec(s: ShelfV) -> ShelfV {
    if !s.selected {
        s
    } else if s.selected_tile < s.tiles.len() - 1 {
        let c = s.selected_tile;
        let t2 = right_mid_tiles(s);
        let t3 = t2.update(c + 1, tile_select_spec(t2[c + 1]));
        ShelfV { tiles: t3, selected_tile: c + 1, ..s }
    } else {
        s
    }
}

/// What a leftward key does to a selected shelf: nothing at the first
/// tile; otherwise unselect the current tile, pan, and select the
/// previous one.
pub open spec fn shelf_left_spec(s: ShelfV) -> ShelfV {
    if !s.selected {
        s
    } else if s.selected_tile > 0 {
        let c = s.selected_tile;
        let t2 = left_mid_tiles(s);
        let t3 = t2.update(c - 1, tile_select_spec(t2[c - 1]));
        ShelfV { tiles: t3, selected_tile: c - 1, ..s }
    } else {
        s
    }
}

/// The y position shared by all tiles of the shelf: below the label if
/// its height is known, with a fixed gap.
pub open spec fn shelf_row_tile_y(s: ShelfV) -> int {
    (match s.label_height {
        Some(lh) => s.rect.y + lh,
        None => s.rect.y,
    }) + LABEL_GAP as int
}

/// Every tile moved back to the shared row y position.
pub open spec fn shelf_reset_tile_y_spec(s: ShelfV) -> ShelfV {
    ShelfV { tiles: Seq::new(s.tiles.len(), |k: int| tile_with_y(s.tiles[k], shelf_row_tile_y(s))), ..s }
}

/// What `set_y` does: move the shelf and re-derive every tile's y.
pub open spec fn shelf_set_y_spec(s: ShelfV, y: int) -> ShelfV {
    shelf_reset_tile_y_spec(ShelfV { rect: RectV { y, ..s.rect }, ..s })
}

/// What `set_label_height` does: record the measured height and re-derive
/// every tile's y.
pub open spec fn shelf_set_label_height_spec(s: ShelfV, lh: int) -> ShelfV {
    shelf_reset_tile_y_spec(ShelfV { label_height: Some(lh), ..s })
}

/// What `select` does: mark the shelf and enlarge its current tile.
pub open spec fn shelf_select_spec(s: ShelfV) -> ShelfV {
    ShelfV {
        selected: true,
        tiles: s.tiles.update(s.selected_tile, tile_select_spec(s.tiles[s.selected_tile])),
        ..s
    }
}

/// What `unselect` does: unmark the shelf and revert its current tile.
pub open spec fn shelf_unselect_spec(s: ShelfV) -> ShelfV {
    ShelfV {
        selected: false,
        tiles: s.tiles.update(s.selected_tile, tile_unselect_spec(s.tiles[s.selected_tile])),
        ..s
    }
}

/// Index of the first tile whose stored URL equals `url`, or -1.
pub open spec fn first_url_match(tiles: Seq<TileV>, url: Seq<char>) -> int
    decreases tiles.len(),
{
    if tiles.len() == 0 {
        -1
    } else if tiles[0].url == url {
        0
    } else {
        let r = first_url_match(tiles.drop_first(), url);
        if r == -1 {
            -1
        } else {
            r + 1
        }
    }
}

/// What an image event does to a shelf: the payload is attached to the
/// first tile whose URL matches; with no match, nothing changes.
pub open spec fn shelf_apply_image_spec(s: ShelfV, url: Seq<char>, b: bytes::Bytes) -> ShelfV {
    let i = first_url_match(s.tiles, url);
    if i >= 0 {
        ShelfV { tiles: s.tiles.update(i, TileV { img: Some(b), ..s.tiles[i] }), ..s }
    } else {
        s
    }
}

/// The shelf created for `cs` at vertical position `y`: unselected, the
/// selected index at 0, and the tiles laid out left to right from the
/// padding on, one step apart.
pub open spec fn shelf_load_spec(cs: ContentSet, height: int, pad: int, y: int) -> ShelfV {
    let w = tile_default_width(height - pad);
    ShelfV {
        title: cs.spec_title(),
        height,
        selected: false,
        tiles: Seq::new(
            cs.items@.len(),
            |k: int| tile_load_spec(cs.items@[k], pad + k * (w + pad), y + pad, height - pad),
        ),
        selected_tile: 0,
        padding: pad,
        rect: RectV { x: pad, y, width: SHELF_WIDTH as int, height },
        content_set: cs,
        label_height: None,
    }
}

/// The closed-form base positions all fit comfortably within the
/// coordinate bound, with room for the selection shift.
proof fn lemma_expected_x_bound(s: ShelfV, k: int)
    requires
        0 <= s.padding <= MAX_DIM as int,
        s.padding <= s.height <= MAX_DIM as int,
        s.tiles.len() <= MAX_COUNT as int,
        0 <= s.selected_tile < s.tiles.len(),
        0 <= k < s.tiles.len(),
    ensures
        -(COORD_BOUND as int) + (SELECT_SHIFT_X as int) < s.expected_tile_x(k),
        s.expected_tile_x(k) < (COORD_BOUND as int) - (SELECT_SHIFT_X as int),
{
    let w = s.tile_w();
    let p = s.padding;
    let t = s.selected_tile;
    assert(0 <= w <= MAX_TILE_W as int);
    assert(0 <= s.step() <= 30_000);
    if t == 0 {
        vstd::arithmetic::mul::lemma_mul_nonnegative(k, s.step());
        vstd::arithmetic::mul::lemma_mul_upper_bound(k, MAX_COUNT as int, s.step(), 30_000);
    } else if k <= t - 2 {
    } else {
        let m = k - (t - 1);
        assert(0 <= m <= MAX_COUNT as int);
        vstd::arithmetic::mul::lemma_mul_nonnegative(m, s.step());
        vstd::arithmetic::mul::lemma_mul_upper_bound(m, MAX_COUNT as int, s.step(), 30_000);
    }
}

/// After the current tile is reverted, every tile of the shelf is
/// unselected, sits at its base position with the default extent, and
/// stays valid.
proof fn lemma_deselected_tiles_facts(s: ShelfV)
    requires
        s.wf(),
        s.selected,
    ensures
        ({
            let t1 = shelf_deselected_tiles(s);
            &&& t1.len() == s.tiles.len()
            &&& forall|k: int| 0 <= k < t1.len() ==> !(#[trigger] t1[k]).selected
            &&& forall|k: int| 0 <= k < t1.len() ==> (#[trigger] t1[k]).rect.x == s.expected_tile_x(k)
            &&& forall|k: int| 0 <= k < t1.len() ==> (#[trigger] t1[k]).rect.width == s.tile_w()
            &&& forall|k: int| 0 <= k < t1.len() ==> (#[trigger] t1[k]).wf()
            &&& forall|k: int| 0 <= k < t1.len() ==> (#[trigger] t1[k]).default_width == s.tile_w()
            &&& forall|k: int| 0 <= k < t1.len()
                ==> (#[trigger] t1[k]).default_height == s.height - s.padding
        }),
{
    let t1 = shelf_deselected_tiles(s);
    let c = s.selected_tile;
    assert forall|k: int| 0 <= k < t1.len() implies !(#[trigger] t1[k]).selected
        && t1[k].rect.x == s.expected_tile_x(k) && t1[k].rect.width == s.tile_w() && t1[k].wf()
        && t1[k].default_width == s.tile_w() && t1[k].default_height == s.height - s.padding by {
        assert(s.tiles[k].wf());
        assert(s.tiles[k].base_x() == s.expected_tile_x(k));
        if k == c {
            assert(t1[k] == tile_unselect_spec(s.tiles[c]));
        } else {
            assert(t1[k] == s.tiles[k]);
        }
    }
}

/// The pan of a rightward move leaves every tile unselected and valid,
/// at exactly the base position that the closed form gives for the
/// incremented selected index.
proof fn lemma_right_mid_facts(s: ShelfV)
    requires
        s.wf(),
        s.selected,
        s.selected_tile < s.tiles.len() - 1,
    ensures
        ({
            let t2 = right_mid_tiles(s);
            let sn = ShelfV { selected_tile: s.selected_tile + 1, ..s };
            &&& t2.len() == s.tiles.len()
            &&& forall|k: int| 0 <= k < t2.len()
                ==> #[trigger] t2[k] == tile_with_x(
                    shelf_deselected_tiles(s)[k],
                    sn.expected_tile_x(k),
                )
            &&& forall|k: int| 0 <= k < t2.len() ==> !(#[trigger] t2[k]).selected
            &&& forall|k: int| 0 <= k < t2.len() ==> (#[trigger] t2[k]).wf()
            &&& forall|k: int| 0 <= k < t2.len() ==> (#[trigger] t2[k]).rect.x == sn.expected_tile_x(k)
            &&& forall|k: int| 0 <= k < t2.len() ==> (#[trigger] t2[k]).rect.width == s.tile_w()
        }),
{
    lemma_deselected_tiles_facts(s);
    let t1 = shelf_deselected_tiles(s);
    let t2 = right_mid_tiles(s);
    let sn = ShelfV { selected_tile: s.selected_tile + 1, ..s };
    let c = s.selected_tile;
    let w = s.tile_w();
    let p = s.padding;
    assert forall|k: int| 0 <= k < t2.len()
        implies #[trigger] t2[k] == tile_with_x(t1[k], sn.expected_tile_x(k)) by {
        if c == 0 {
            assert(t2[k] == tile_with_x(t1[k], t1[k].rect.x - t1[k].rect.width / 2 - p));
            assert(t1[k].rect.x == p + k * s.step());
            assert(sn.expected_tile_x(k) == -(w / 2) + (k - 0) * s.step());
        } else {
            if k == 0 {
                assert(t2[k] == tile_with_x(t1[0], -(t1[0].rect.width / 2) - p));
                assert(sn.expected_tile_x(0) == -(w / 2) - p);
            } else {
                assert(t2[k] == tile_with_x(t1[k], t1[k - 1].rect.x));
                assert(t1[k - 1].rect.x == s.expected_tile_x(k - 1));
                if k - 1 <= c - 2 {
                    assert(s.expected_tile_x(k - 1) == -(w / 2) - p);
                    assert(k <= c - 1);
                    assert(sn.expected_tile_x(k) == -(w / 2) - p);
                } else {
                    assert(s.expected_tile_x(k - 1) == -(w / 2) + ((k - 1) - (c - 1)) * s.step());
                    assert(((k - 1) - (c - 1)) == k - c);
                    assert(sn.expected_tile_x(k) == -(w / 2) + (k - c) * s.step());
                }
            }
        }
    }
    assert forall|k: int| 0 <= k < t2.len() implies (#[trigger] t2[k]).wf()
        && t2[k].rect.x == sn.expected_tile_x(k) by {
        lemma_expected_x_bound(ShelfV { selected_tile: c + 1, ..s }, k);
        assert(t1[k].wf());
    }
}

/// The pan of a leftward move leaves every tile unselected and valid,
/// at exactly the base position that the closed form gives for the
/// decremented selected index.
proof fn lemma_left_mid_facts(s: ShelfV)
    requires
        s.wf(),
        s.selected,
        s.selected_tile > 0,
    ensures
        ({
            let t2 = left_mid_tiles(s);
            let sn = ShelfV { selected_tile: s.selected_tile - 1, ..s };
            &&& t2.len() == s.tiles.len()
            &&& forall|k: int| 0 <= k < t2.len()
                ==> #[trigger] t2[k] == tile_with_x(
                    shelf_deselected_tiles(s)[k],
                    sn.expected_tile_x(k),
                )
            &&& forall|k: int| 0 <= k < t2.len() ==> !(#[trigger] t2[k]).selected
            &&& forall|k: int| 0 <= k < t2.len() ==> (#[trigger] t2[k]).wf()
            &&& forall|k: int| 0 <= k < t2.len() ==> (#[trigger] t2[k]).rect.x == sn.expected_tile_x(k)
            &&& forall|k: int| 0 <= k < t2.len() ==> (#[trigger] t2[k]).rect.width == s.tile_w()
        }),
{
    lemma_deselected_tiles_facts(s);
    let t1 = shelf_deselected_tiles(s);
    let t2 = left_mid_tiles(s);
    let sn = ShelfV { selected_tile: s.selected_tile - 1, ..s };
    let c = s.selected_tile;
    let w = s.tile_w();
    let p = s.padding;
    let n = s.tiles.len() as int;
    assert forall|k: int| 0 <= k < t2.len()
        implies #[trigger] t2[k] == tile_with_x(t1[k], sn.expected_tile_x(k)) by {
        if c == 1 {
            assert(t2[k] == tile_with_x(t1[k], t1[k].rect.x + t1[k].rect.width / 2 + p));
            assert(t1[k].rect.x == -(w / 2) + (k - 0) * s.step());
            assert(sn.expected_tile_x(k) == p + k * s.step());
        } else {
            if k == n - 1 {
                assert(t2[k] == tile_with_x(t1[k], t1[k].rect.x + t1[k].rect.width + p));
                assert(t1[k].rect.x == -(w / 2) + (k - (c - 1)) * s.step());
                vstd::arithmetic::mul::lemma_mul_is_distributive_add_other_way(
                    s.step(),
                    k - (c - 1),
                    1,
                );
                assert((k - (c - 1)) * s.step() + s.step() == (k - (c - 1) + 1) * s.step());
                assert((k - (c - 1) + 1) == (k - (c - 2)));
                assert(sn.expected_tile_x(k) == -(w / 2) + (k - (c - 2)) * s.step());
            } else {
                assert(t2[k] == tile_with_x(t1[k], t1[k + 1].rect.x));
                assert(t1[k + 1].rect.x == s.expected_tile_x(k + 1));
                if k + 1 <= c - 2 {
                    assert(sn.expected_tile_x(k) == -(w / 2) - p);
                } else {
                    assert(s.expected_tile_x(k + 1) == -(w / 2) + ((k + 1) - (c - 1)) * s.step());
                    assert(((k + 1) - (c - 1)) == (k - (c - 2)));
                    assert(sn.expected_tile_x(k) == -(w / 2) + (k - (c - 2)) * s.step());
                }
            }
        }
    }
    assert forall|k: int| 0 <= k < t2.len() implies (#[trigger] t2[k]).wf()
        && t2[k].rect.x == sn.expected_tile_x(k) by {
        lemma_expected_x_bound(ShelfV { selected_tile: c - 1, ..s }, k);
        assert(t1[k].wf());
    }
}

/// A rightward move preserves shelf validity.
proof fn lemma_right_wf(s: ShelfV)
    requires
        s.wf(),
        s.selected,
        s.selected_tile < s.tiles.len() - 1,
    ensures
        shelf_right_spec(s).wf(),
        shelf_right_spec(s).selected_tile == s.selected_tile + 1,
        shelf_right_spec(s).tiles.len() == s.tiles.len(),
        shelf_right_spec(s).selected,
{
    lemma_right_mid_facts(s);
    let c = s.selected_tile;
    let t2 = right_mid_tiles(s);
    let s2 = shelf_right_spec(s);
    assert(s2.tiles == t2.update(c + 1, tile_select_spec(t2[c + 1])));
    assert forall|k: int| 0 <= k < s2.tiles.len() implies (#[trigger] s2.tiles[k]).wf()
        && (s2.tiles[k].selected <==> (s2.selected && k == s2.selected_tile))
        && s2.tiles[k].default_width == s2.tile_w()
        && s2.tiles[k].default_height == s2.height - s2.padding
        && s2.tiles[k].base_x() == s2.expected_tile_x(k) by {
        assert(t2[k].wf());
        assert(t2[k].rect.x == ShelfV { selected_tile: c + 1, ..s }.expected_tile_x(k));
        if k == c + 1 {
            assert(s2.tiles[k] == tile_select_spec(t2[k]));
        } else {
            assert(s2.tiles[k] == t2[k]);
        }
    }
}

/// A leftward move preserves shelf validity.
proof fn lemma_left_wf(s: ShelfV)
    requires
        s.wf(),
        s.selected,
        s.selected_tile > 0,
    ensures
        shelf_left_spec(s).wf(),
        shelf_left_spec(s).selected_tile == s.selected_tile - 1,
        shelf_left_spec(s).tiles.len() == s.tiles.len(),
        shelf_left_spec(s).selected,
{
    lemma_left_mid_facts(s);
    let c = s.selected_tile;
    let t2 = left_mid_tiles(s);
    let s2 = shelf_left_spec(s);
    assert(s2.tiles == t2.update(c - 1, tile_select_spec(t2[c - 1])));
    assert forall|k: int| 0 <= k < s2.tiles.len() implies (#[trigger] s2.tiles[k]).wf()
        && (s2.tiles[k].selected <==> (s2.selected && k == s2.selected_tile))
        && s2.tiles[k].default_width == s2.tile_w()
        && s2.tiles[k].default_height == s2.height - s2.padding
        && s2.tiles[k].base_x() == s2.expected_tile_x(k) by {
        assert(t2[k].wf());
        assert(t2[k].rect.x == ShelfV { selected_tile: c - 1, ..s }.expected_tile_x(k));
        if k == c - 1 {
            assert(s2.tiles[k] == tile_select_spec(t2[k]));
        } else {
            assert(s2.tiles[k] == t2[k]);
        }
    }
}

/// The first-match index is either -1 or a valid index.
pub proof fn lemma_first_url_match_range(tiles: Seq<TileV>, url: Seq<char>)
    ensures
        -1 <= first_url_match(tiles, url) < tiles.len(),
    decreases tiles.len(),
{
    if tiles.len() > 0 && tiles[0].url != url {
        lemma_first_url_match_range(tiles.drop_first(), url);
    }
}

proof fn lemma_first_url_match_at(tiles: Seq<TileV>, url: Seq<char>, i: int)
    requires
        0 <= i < tiles.len(),
        forall|j: int| 0 <= j < i ==> (#[trigger] tiles[j]).url != url,
        tiles[i].url == url,
    ensures
        first_url_match(tiles, url) == i,
    decreases i,
{
    if i > 0 {
        lemma_first_url_match_at(tiles.drop_first(), url, i - 1);
    }
}

proof fn lemma_first_url_match_none(tiles: Seq<TileV>, url: Seq<char>)
    requires
        forall|j: int| 0 <= j < tiles.len() ==> (#[trigger] tiles[j]).url != url,
    ensures
        first_url_match(tiles, url) == -1,
    decreases tiles.len(),
{
    if tiles.len() > 0 {
        lemma_first_url_match_none(tiles.drop_first(), url);
    }
}

/// A row of tile images that the user can scroll left and right
/// through, formed from one content set such as a curated collection.
pub struct Shelf {
    title: String,
    height: u32,
    selected: bool,
    tiles: Vec<ShelfTile>,
    selected_tile: usize,
    padding: u32,
    rect: Rect,
    content_set: ContentSet,
    label_height: Option<u32>,
}

impl View for Shelf {
    type V = ShelfV;

    closed spec fn view(&self) -> ShelfV {
        ShelfV {
            title: self.title@,
            height: self.height as int,
            selected: self.selected,
            tiles: Seq::new(self.tiles@.len(), |k: int| self.tiles@[k]@),
            selected_tile: self.selected_tile as int,
            padding: self.padding as int,
            rect: self.rect@,
            content_set: self.content_set,
            label_height: match self.label_height {
                Some(lh) => Some(lh as int),
                None => None,
            },
        }
    }
}

impl Shelf {
    /// Creates the shelf for one content set, with its tiles.  Every
    /// item must carry an image URL for the default size label.
    pub fn load(content_set: ContentSet, height: u32, tile_padding: u32, y: i32) -> (r: Shelf)
        requires
            tile_padding <= height,
            height <= MAX_DIM,
            -(ROW_Y_BOUND as int) <= y as int <= ROW_Y_BOUND as int,
            content_set.items@.len() <= MAX_COUNT as int,
            forall|i: int| 0 <= i < content_set.items@.len()
                ==> (#[trigger] content_set.items@[i]).spec_tile_image_url(default_size_label()) is Some,
        ensures
            r@ == shelf_load_spec(content_set, height as int, tile_padding as int, y as int),
            r@.wf(),
    {
        let ghost sv = shelf_load_spec(content_set, height as int, tile_padding as int, y as int);
        let title = content_set.title().clone();
        let tile_h = height - tile_padding;
        let y_pos: i32 = y + tile_padding as i32;
        let mut tiles: Vec<ShelfTile> = Vec::new();
        let n = content_set.items_iter().len();
        let mut x_pos: i32 = tile_padding as i32;
        let mut i: usize = 0;
        while i < n
            invariant
                n == content_set.items@.len(),
                n <= MAX_COUNT,
                tile_padding <= height <= MAX_DIM,
                tile_h == height - tile_padding,
                -(ROW_Y_BOUND as int) <= y as int <= ROW_Y_BOUND as int,
                y_pos == y + tile_padding,
                forall|j: int| 0 <= j < n
                    ==> (#[trigger] content_set.items@[j]).spec_tile_image_url(default_size_label()) is Some,
                sv == shelf_load_spec(content_set, height as int, tile_padding as int, y as int),
                0 <= i <= n,
                tiles@.len() == i,
                x_pos as int == tile_padding + i * (sv.tile_w() + tile_padding),
                x_pos as int <= MAX_DIM + i * 30_000,
                forall|j: int| 0 <= j < i ==> (#[trigger] tiles@[j])@ == sv.tiles[j],
                forall|j: int| 0 <= j < i ==> (#[trigger] tiles@[j])@.wf(),
            decreases n - i,
        {
            assert(0 <= sv.tile_w() + tile_padding <= 30_000);
            let tile = ShelfTile::load(&content_set.items_iter()[i], x_pos, y_pos, tile_h);
            let tw = tile.width();
            assert(tw as int == sv.tile_w());
            tiles.push(tile);
            proof {
                vstd::arithmetic::mul::lemma_mul_is_distributive_add_other_way(
                    sv.tile_w() + tile_padding,
                    i as int,
                    1,
                );
            }
            x_pos = x_pos + tw as i32 + tile_padding as i32;
            i = i + 1;
        }
        let shelf = Shelf {
            title,
            height,
            selected: false,
            tiles,
            selected_tile: 0,
            padding: tile_padding,
            rect: Rect::new(tile_padding as i32, y, SHELF_WIDTH, height),
            content_set,
            label_height: None,
        };
        proof {
            assert(shelf@.tiles =~= sv.tiles);
            assert(shelf@ == sv);
            assert forall|k: int| 0 <= k < sv.tiles.len() implies (#[trigger] sv.tiles[k]).wf() by {
            }
            assert forall|k: int| 0 <= k < sv.tiles.len()
                implies (#[trigger] sv.tiles[k]).base_x() == sv.expected_tile_x(k) by {
            }
            assert(shelf@.wf());
        }
        shelf
    }

    /// Routes an image event within this shelf: the payload is attached
    /// to the first tile whose stored URL matches the event's, and the
    /// result says whether such a tile was found.
    pub fn on_image_load(&mut self, event: ImageLoadEvent) -> (found: bool)
        requires
            old(self)@.wf(),
        ensures
            final(self)@ == shelf_apply_image_spec(old(self)@, event.img_url@, event.bytes),
            found == (first_url_match(old(self)@.tiles, event.img_url@) >= 0),
            final(self)@.wf(),
    {
        let n = self.tiles.len();
        let mut k: usize = 0;
        while k < n
            invariant
                n == self.tiles@.len(),
                n == old(self)@.tiles.len(),
                old(self)@.wf(),
                0 <= k <= n,
                *self == *old(self),
                forall|j: int| 0 <= j < k ==> (#[trigger] self@.tiles[j]).url != event.img_url@,
            decreases n - k,
        {
            if *self.tiles[k].image_url() == event.img_url {
                proof {
                    lemma_first_url_match_at(self@.tiles, event.img_url@, k as int);
                }
                self.tiles[k].set_img(event.bytes);
                proof {
                    let s0 = old(self)@;
                    let s2 = self@;
                    assert(s2.tiles =~= shelf_apply_image_spec(s0, event.img_url@, event.bytes).tiles);
                    assert(s2 == shelf_apply_image_spec(s0, event.img_url@, event.bytes));
                    assert forall|j: int| 0 <= j < s2.tiles.len() implies (#[trigger] s2.tiles[j]).wf() by {
                        assert(s0.tiles[j].wf());
                    }
                    assert forall|j: int| 0 <= j < s2.tiles.len()
                        implies (#[trigger] s2.tiles[j]).base_x() == s2.expected_tile_x(j) by {
                        assert(s0.tiles[j].base_x() == s0.expected_tile_x(j));
                    }
                }
                return true;
            }
            k = k + 1;
        }
        proof {
            lemma_first_url_match_none(self@.tiles, event.img_url@);
        }
        false
    }

    /// Moves the shelf to a new vertical position and re-derives every
    /// tile's y position from it.
    pub fn set_y(&mut self, new_y: i32)
        requires
            old(self)@.wf(),
            -(ROW_Y_BOUND as int) <= new_y as int <= ROW_Y_BOUND as int,
        ensures
            final(self)@ == shelf_set_y_spec(old(self)@, new_y as int),
            final(self)@.wf(),
    {
        self.rect.set_y(new_y);
        self.reset_tile_y();
        proof {
            assert(self@.tiles =~= shelf_set_y_spec(old(self)@, new_y as int).tiles);
            assert(self@ == shelf_set_y_spec(old(self)@, new_y as int));
        }
    }

    /// Records the measured height of the shelf label and re-derives
    /// every tile's y position, so tiles stay below the label.
    pub fn set_label_height(&mut self, lh: u32)
        requires
            old(self)@.wf(),
            lh <= MAX_LABEL_HEIGHT,
        ensures
            final(self)@ == shelf_set_label_height_spec(old(self)@, lh as int),
            final(self)@.wf(),
    {
        self.label_height = Some(lh);
        self.reset_tile_y();
        proof {
            assert(self@.tiles =~= shelf_set_label_height_spec(old(self)@, lh as int).tiles);
            assert(self@ == shelf_set_label_height_spec(old(self)@, lh as int));
        }
    }

    /// Moves every tile back to the shared row y position.
    fn reset_tile_y(&mut self)
        requires
            old(self)@.padding <= old(self)@.height <= MAX_DIM as int,
            0 <= old(self)@.padding,
            old(self)@.tiles.len() <= MAX_COUNT as int,
            forall|k: int| 0 <= k < old(self)@.tiles.len() ==> (#[trigger] old(self)@.tiles[k]).wf(),
            -(ROW_Y_BOUND as int) <= old(self)@.rect.y <= ROW_Y_BOUND as int,
            (match old(self)@.label_height {
                Some(lh) => 0 <= lh <= MAX_LABEL_HEIGHT as int,
                None => true,
            }),
        ensures
            final(self)@ == shelf_reset_tile_y_spec(old(self)@),
            forall|k: int| 0 <= k < final(self)@.tiles.len() ==> (#[trigger] final(self)@.tiles[k]).wf(),
    {
        let new_y = self.rect.y();
        let tile_y = match self.label_height {
            Some(lh) => lh as i32 + new_y,
            None => new_y,
        };
        let row_y = tile_y + LABEL_GAP;
        assert(row_y as int == shelf_row_tile_y(old(self)@));
        let n = self.tiles.len();
        proof {
            assert forall|j: int| 0 <= j < n implies (#[trigger] old(self).tiles@[j])@.wf() by {
                assert(old(self)@.tiles[j].wf());
            }
        }
        let mut k: usize = 0;
        while k < n
            invariant
                n == self.tiles@.len(),
                n == old(self)@.tiles.len(),
                0 <= k <= n,
                row_y as int == shelf_row_tile_y(old(self)@),
                -(COORD_BOUND as int) < (row_y as int) < (COORD_BOUND as int) - 20,
                self.title == old(self).title,
                self.height == old(self).height,
                self.selected == old(self).selected,
                self.selected_tile == old(self).selected_tile,
                self.padding == old(self).padding,
                self.rect == old(self).rect,
                self.content_set == old(self).content_set,
                self.label_height == old(self).label_height,
                forall|j: int| k <= j < n ==> (#[trigger] self.tiles@[j])@ == old(self).tiles@[j]@,
                forall|j: int| 0 <= j < k
                    ==> (#[trigger] self.tiles@[j])@ == tile_with_y(old(self).tiles@[j]@, row_y as int),
                forall|j: int| 0 <= j < n ==> (#[trigger] old(self).tiles@[j])@.wf(),
            decreases n - k,
        {
            self.tiles[k].set_y(row_y);
            k = k + 1;
        }
        proof {
            let s2 = self@;
            assert(s2.tiles =~= shelf_reset_tile_y_spec(old(self)@).tiles);
            assert(s2 == shelf_reset_tile_y_spec(old(self)@));
            assert forall|j: int| 0 <= j < s2.tiles.len()
                implies (#[trigger] s2.tiles[j]).wf() by {
                assert(old(self)@.tiles[j].wf());
            }
        }
    }

    /// The y coordinate one past the shelf's bottom edge.
    pub fn bottom(&self) -> (r: i32)
        requires
            self@.wf(),
        ensures
            r == self@.rect.y + self@.rect.height,
    {
        self.rect.bottom()
    }

    pub fn x(&self) -> (r: i32)
        ensures
            r == self@.rect.x,
    {
        self.rect.x()
    }

    pub fn y(&self) -> (r: i32)
        ensures
            r == self@.rect.y,
    {
        self.rect.y()
    }

    pub fn height(&self) -> (r: u32)
        ensures
            r == self@.height,
    {
        self.height
    }

    /// Whether the shelf's rectangle overlaps the viewport vertically;
    /// only such shelves are submitted for drawing.
    pub fn in_vertical_view(&self, viewport_top: i32, viewport_bottom: i32) -> (r: bool)
        requires
            self@.wf(),
        ensures
            r == (self@.rect.y <= viewport_bottom as int
                && self@.rect.y + self@.rect.height >= viewport_top as int),
    {
        self.y() <= viewport_bottom && self.bottom() >= viewport_top
    }

    /// Marks the shelf selected and enlarges its current tile.
    pub fn select(&mut self)
        requires
            old(self)@.wf(),
            old(self)@.tiles.len() > 0,
        ensures
            final(self)@ == shelf_select_spec(old(self)@),
            final(self)@.wf(),
    {
        self.selected = true;
        let idx = self.selected_tile;
        self.tiles[idx].select();
        proof {
            let s0 = old(self)@;
            let s2 = self@;
            assert(s2.tiles =~= shelf_select_spec(s0).tiles);
            assert(s2 == shelf_select_spec(s0));
            assert forall|k: int| 0 <= k < s2.tiles.len() implies (#[trigger] s2.tiles[k]).wf() by {
                assert(s0.tiles[k].wf());
            }
            assert forall|k: int| 0 <= k < s2.tiles.len()
                implies (#[trigger] s2.tiles[k]).base_x() == s2.expected_tile_x(k) by {
                assert(s0.tiles[k].base_x() == s0.expected_tile_x(k));
            }
        }
    }

    /// Unmarks the shelf and reverts its current tile.
    pub fn unselect(&mut self)
        requires
            old(self)@.wf(),
            old(self)@.tiles.len() > 0,
        ensures
            final(self)@ == shelf_unselect_spec(old(self)@),
            final(self)@.wf(),
    {
        self.selected = false;
        let idx = self.selected_tile;
        self.tiles[idx].unselect();
        proof {
            let s0 = old(self)@;
            let s2 = self@;
            assert(s2.tiles =~= shelf_unselect_spec(s0).tiles);
            assert(s2 == shelf_unselect_spec(s0));
            assert forall|k: int| 0 <= k < s2.tiles.len() implies (#[trigger] s2.tiles[k]).wf() by {
                assert(s0.tiles[k].wf());
            }
            assert forall|k: int| 0 <= k < s2.tiles.len()
                implies (#[trigger] s2.tiles[k]).base_x() == s2.expected_tile_x(k) by {
                assert(s0.tiles[k].base_x() == s0.expected_tile_x(k));
            }
        }
    }

    /// Advances the selection one tile to the right, panning the row;
    /// a no-op on an unselected shelf or at the last tile.
    pub fn on_key_right(&mut self)
        requires
            old(self)@.wf(),
        ensures
            final(self)@ == shelf_right_spec(old(self)@),
            final(self)@.wf(),
    {
        let ghost s0 = old(self)@;
        if self.selected {
            if self.selected_tile < self.tiles.len() - 1 {
                proof {
                    lemma_deselected_tiles_facts(s0);
                    lemma_right_mid_facts(s0);
                    lemma_right_wf(s0);
                }
                let ghost t1v = shelf_deselected_tiles(s0);
                let ghost midv = right_mid_tiles(s0);
                let current_selection = self.selected_tile;
                self.selected_tile = current_selection + 1;
                proof {
                    assert(self.tiles@[current_selection as int]@ == s0.tiles[current_selection as int]);
                }
                self.tiles[current_selection].unselect();
                proof {
                    assert forall|j: int| 0 <= j < self.tiles@.len()
                        implies (#[trigger] self.tiles@[j])@ == t1v[j] by {
                        if j != current_selection {
                            assert(self.tiles@[j]@ == s0.tiles[j]);
                        }
                    }
                }
                let pad = self.padding;
                let n = self.tiles.len();
                if current_selection == 0 {
                    let mut k: usize = 0;
                    while k < n
                        invariant
                            n == self.tiles@.len(),
                            n == t1v.len(),
                            n == midv.len(),
                            0 <= k <= n,
                            s0.wf(),
                            s0.selected,
                            s0.selected_tile == 0,
                            n == s0.tiles.len(),
                            t1v == shelf_deselected_tiles(s0),
                            midv == right_mid_tiles(s0),
                            pad as int == s0.padding,
                            self.title == old(self).title,
                            self.height == old(self).height,
                            self.selected == old(self).selected,
                            self.selected_tile as int == s0.selected_tile + 1,
                            self.padding == old(self).padding,
                            self.rect == old(self).rect,
                            self.content_set == old(self).content_set,
                            self.label_height == old(self).label_height,
                            forall|j: int| k <= j < n ==> (#[trigger] self.tiles@[j])@ == t1v[j],
                            forall|j: int| 0 <= j < k ==> (#[trigger] self.tiles@[j])@ == midv[j],
                            forall|j: int| 0 <= j < n ==> (#[trigger] t1v[j]).wf(),
                            forall|j: int| 0 <= j < n ==> !(#[trigger] t1v[j]).selected,
                        decreases n - k,
                    {
                        let w = self.tiles[k].width();
                        let x = self.tiles[k].x();
                        proof {
                            assert(self.tiles@[k as int]@ == t1v[k as int]);
                        }
                        let new_x = x - (w / 2) as i32 - pad as i32;
                        self.tiles[k].set_x(new_x);
                        k = k + 1;
                    }
                } else {
                    let w0 = self.tiles[0].width();
                    proof {
                        assert(self.tiles@[0]@ == t1v[0]);
                    }
                    let mut prior_x: i32 = 0 - (w0 / 2) as i32 - pad as i32;
                    let mut k: usize = 0;
                    while k < n
                        invariant
                            n == self.tiles@.len(),
                            n == t1v.len(),
                            n == midv.len(),
                            0 <= k <= n,
                            s0.wf(),
                            s0.selected,
                            s0.selected_tile >= 1,
                            n == s0.tiles.len(),
                            t1v == shelf_deselected_tiles(s0),
                            midv == right_mid_tiles(s0),
                            pad as int == s0.padding,
                            self.title == old(self).title,
                            self.height == old(self).height,
                            self.selected == old(self).selected,
                            self.selected_tile as int == s0.selected_tile + 1,
                            self.padding == old(self).padding,
                            self.rect == old(self).rect,
                            self.content_set == old(self).content_set,
                            self.label_height == old(self).label_height,
                            prior_x as int == if k == 0 {
                                -(t1v[0].rect.width / 2) - s0.padding
                            } else {
                                t1v[k - 1].rect.x
                            },
                            forall|j: int| k <= j < n ==> (#[trigger] self.tiles@[j])@ == t1v[j],
                            forall|j: int| 0 <= j < k ==> (#[trigger] self.tiles@[j])@ == midv[j],
                            forall|j: int| 0 <= j < n ==> (#[trigger] t1v[j]).wf(),
                            forall|j: int| 0 <= j < n ==> !(#[trigger] t1v[j]).selected,
                        decreases n - k,
                    {
                        proof {
                            assert(self.tiles@[k as int]@ == t1v[k as int]);
                        }
                        let next_x = self.tiles[k].x();
                        self.tiles[k].set_x(prior_x);
                        prior_x = next_x;
                        k = k + 1;
                    }
                }
                proof {
                    let idx = self.selected_tile as int;
                    assert(self.tiles@[idx]@ == midv[idx]);
                    assert(midv[idx].wf());
                }
                self.tiles[self.selected_tile].select();
                proof {
                    let s2 = self@;
                    assert(s2.tiles =~= shelf_right_spec(s0).tiles);
                    assert(s2 == shelf_right_spec(s0));
                }
            }
        }
    }

    /// Moves the selection one tile to the left, panning the row back;
    /// a no-op on an unselected shelf or at the first tile.
    pub fn on_key_left(&mut self)
        requires
            old(self)@.wf(),
        ensures
            final(self)@ == shelf_left_spec(old(self)@),
            final(self)@.wf(),
    {
        let ghost s0 = old(self)@;
        if self.selected {
            if self.selected_tile > 0 {
                proof {
                    lemma_deselected_tiles_facts(s0);
                    lemma_left_mid_facts(s0);
                    lemma_left_wf(s0);
                }
                let ghost t1v = shelf_deselected_tiles(s0);
                let ghost midv = left_mid_tiles(s0);
                let current_selection = self.selected_tile;
                self.selected_tile = current_selection - 1;
                proof {
                    assert(self.tiles@[current_selection as int]@ == s0.tiles[current_selection as int]);
                }
                self.tiles[current_selection].unselect();
                proof {
                    assert forall|j: int| 0 <= j < self.tiles@.len()
                        implies (#[trigger] self.tiles@[j])@ == t1v[j] by {
                        if j != current_selection {
                            assert(self.tiles@[j]@ == s0.tiles[j]);
                        }
                    }
                }
                let pad = self.padding;
                let n = self.tiles.len();
                if self.selected_tile == 0 {
                    let mut k: usize = 0;
                    while k < n
                        invariant
                            n == self.tiles@.len(),
                            n == t1v.len(),
                            n == midv.len(),
                            0 <= k <= n,
                            s0.wf(),
                            s0.selected,
                            s0.selected_tile == 1,
                            n == s0.tiles.len(),
                            t1v == shelf_deselected_tiles(s0),
                            midv == left_mid_tiles(s0),
                            pad as int == s0.padding,
                            self.title == old(self).title,
                            self.height == old(self).height,
                            self.selected == old(self).selected,
                            self.selected_tile as int == s0.selected_tile - 1,
                            self.padding == old(self).padding,
                            self.rect == old(self).rect,
                            self.content_set == old(self).content_set,
                            self.label_height == old(self).label_height,
                            forall|j: int| k <= j < n ==> (#[trigger] self.tiles@[j])@ == t1v[j],
                            forall|j: int| 0 <= j < k ==> (#[trigger] self.tiles@[j])@ == midv[j],
                            forall|j: int| 0 <= j < n ==> (#[trigger] t1v[j]).wf(),
                            forall|j: int| 0 <= j < n ==> !(#[trigger] t1v[j]).selected,
                        decreases n - k,
                    {
                        let w = self.tiles[k].width();
                        let x = self.tiles[k].x();
                        proof {
                            assert(self.tiles@[k as int]@ == t1v[k as int]);
                        }
                        let new_x = x + (w / 2) as i32 + pad as i32;
                        self.tiles[k].set_x(new_x);
                        k = k + 1;
                    }
                } else {
                    proof {
                        assert(self.tiles@[n - 1]@ == t1v[n - 1]);
                    }
                    let last_right = self.tiles[n - 1].right();
                    let mut prior_x: i32 = last_right + pad as i32;
                    let mut k: usize = n;
                    while k > 0
                        invariant
                            n == self.tiles@.len(),
                            n == t1v.len(),
                            n == midv.len(),
                            0 <= k <= n,
                            s0.wf(),
                            s0.selected,
                            s0.selected_tile >= 2,
                            n == s0.tiles.len(),
                            t1v == shelf_deselected_tiles(s0),
                            midv == left_mid_tiles(s0),
                            pad as int == s0.padding,
                            self.title == old(self).title,
                            self.height == old(self).height,
                            self.selected == old(self).selected,
                            self.selected_tile as int == s0.selected_tile - 1,
                            self.padding == old(self).padding,
                            self.rect == old(self).rect,
                            self.content_set == old(self).content_set,
                            self.label_height == old(self).label_height,
                            prior_x as int == if k == n {
                                t1v[n - 1].rect.x + t1v[n - 1].rect.width + s0.padding
                            } else {
                                t1v[k as int].rect.x
                            },
                            forall|j: int| 0 <= j < k ==> (#[trigger] self.tiles@[j])@ == t1v[j],
                            forall|j: int| k <= j < n ==> (#[trigger] self.tiles@[j])@ == midv[j],
                            forall|j: int| 0 <= j < n ==> (#[trigger] t1v[j]).wf(),
                            forall|j: int| 0 <= j < n ==> !(#[trigger] t1v[j]).selected,
                        decreases k,
                    {
                        k = k - 1;
                        proof {
                            assert(self.tiles@[k as int]@ == t1v[k as int]);
                        }
                        let next_x = self.tiles[k].x();
                        self.tiles[k].set_x(prior_x);
                        prior_x = next_x;
                    }
                }
                proof {
                    let idx = self.selected_tile as int;
                    assert(self.tiles@[idx]@ == midv[idx]);
                    assert(midv[idx].wf());
                }
                self.tiles[self.selected_tile].select();
                proof {
                    let s2 = self@;
                    assert(s2.tiles =~= shelf_left_spec(s0).tiles);
                    assert(s2 == shelf_left_spec(s0));
                }
            }
        }
    }

    pub fn title(&self) -> (r: &String)
        ensures
            r@ == self@.title,
    {
        &self.title
    }

    pub fn selected(&self) -> (r: bool)
        ensures
            r == self@.selected,
    {
        self.selected
    }

    /// The index of the current tile; always a valid index while the
    /// shelf has tiles.
    pub fn selected_tile_index(&self) -> (r: usize)
        ensures
            r == self@.selected_tile,
    {
        self.selected_tile
    }

    pub fn tile_count(&self) -> (r: usize)
        ensures
            r == self@.tiles.len(),
    {
        self.tiles.len()
    }

    pub fn tile(&self, i: usize) -> (r: &ShelfTile)
        requires
            i < self@.tiles.len(),
        ensures
            r@ == self@.tiles[i as int],
    {
        &self.tiles[i]
    }
}

/// Selecting a shelf with at least one tile preserves its validity.
pub proof fn lemma_shelf_select_wf(s: ShelfV)
    requires
        s.wf(),
        s.tiles.len() > 0,
    ensures
        shelf_select_spec(s).wf(),
{
    let s2 = shelf_select_spec(s);
    assert forall|k: int| 0 <= k < s2.tiles.len() implies (#[trigger] s2.tiles[k]).wf()
        && (s2.tiles[k].selected <==> (s2.selected && k == s2.selected_tile))
        && s2.tiles[k].default_width == s2.tile_w()
        && s2.tiles[k].default_height == s2.height - s2.padding
        && s2.tiles[k].base_x() == s2.expected_tile_x(k) by {
        assert(s.tiles[k].wf());
        assert(s.tiles[k].base_x() == s.expected_tile_x(k));
        if k == s.selected_tile {
            assert(s2.tiles[k] == tile_select_spec(s.tiles[k]));
        } else {
            assert(s2.tiles[k] == s.tiles[k]);
        }
    }
}

/// Unselecting a shelf with at least one tile preserves its validity.
pub proof fn lemma_shelf_unselect_wf(s: ShelfV)
    requires
        s.wf(),
        s.tiles.len() > 0,
    ensures
        shelf_unselect_spec(s).wf(),
{
    let s2 = shelf_unselect_spec(s);
    assert forall|k: int| 0 <= k < s2.tiles.len() implies (#[trigger] s2.tiles[k]).wf()
        && (s2.tiles[k].selected <==> (s2.selected && k == s2.selected_tile))
        && s2.tiles[k].default_width == s2.tile_w()
        && s2.tiles[k].default_height == s2.height - s2.padding
        && s2.tiles[k].base_x() == s2.expected_tile_x(k) by {
        assert(s.tiles[k].wf());
        assert(s.tiles[k].base_x() == s.expected_tile_x(k));
        if k == s.selected_tile {
            assert(s2.tiles[k] == tile_unselect_spec(s.tiles[k]));
        } else {
            assert(s2.tiles[k] == s.tiles[k]);
        }
    }
}

/// Moving a shelf to a bounded vertical position preserves its
/// validity.
pub proof fn lemma_shelf_set_y_wf(s: ShelfV, ny: int)
    requires
        s.wf(),
        -(ROW_Y_BOUND as int) <= ny <= ROW_Y_BOUND as int,
    ensures
        shelf_set_y_spec(s, ny).wf(),
{
    let s2 = shelf_set_y_spec(s, ny);
    assert forall|k: int| 0 <= k < s2.tiles.len() implies (#[trigger] s2.tiles[k]).wf()
        && (s2.tiles[k].selected <==> (s2.selected && k == s2.selected_tile))
        && s2.tiles[k].default_width == s2.tile_w()
        && s2.tiles[k].default_height == s2.height - s2.padding
        && s2.tiles[k].base_x() == s2.expected_tile_x(k) by {
        assert(s.tiles[k].wf());
        assert(s.tiles[k].base_x() == s.expected_tile_x(k));
        assert(s2.tiles[k] == tile_with_y(s.tiles[k], shelf_row_tile_y(ShelfV {
            rect: RectV { y: ny, ..s.rect },
            ..s
        })));
    }
}

/// Boundary: a rightward key on the last tile of a shelf changes
/// nothing — neither the selected index nor any tile position.
pub proof fn lemma_right_at_last_tile_is_noop(s: ShelfV)
    requires
        s.wf(),
        s.selected,
        s.selected_tile == s.tiles.len() - 1,
    ensures
        shelf_right_spec(s) == s,
{
}

/// Boundary: a leftward key on the first tile of a shelf changes
/// nothing.
pub proof fn lemma_left_at_first_tile_is_noop(s: ShelfV)
    requires
        s.wf(),
        s.selected,
        s.selected_tile == 0,
    ensures
        shelf_left_spec(s) == s,
{
}

/// Right then left from any valid non-boundary selected tile restores
/// the shelf exactly: the selected index and every tile's position.
pub proof fn lemma_right_then_left_round_trip(s: ShelfV)
    requires
        s.wf(),
        s.selected,
        0 <= s.selected_tile < s.tiles.len() - 1,
    ensures
        shelf_left_spec(shelf_right_spec(s)) == s,
{
    let c = s.selected_tile;
    let n = s.tiles.len() as int;
    let w = s.tile_w();
    let p = s.padding;
    lemma_deselected_tiles_facts(s);
    lemma_right_mid_facts(s);
    lemma_right_wf(s);
    let t1 = shelf_deselected_tiles(s);
    let t2 = right_mid_tiles(s);
    let s1 = shelf_right_spec(s);
    assert(s1.selected_tile == c + 1);
    assert(s1.tiles == t2.update(c + 1, tile_select_spec(t2[c + 1])));

    // Undoing the selection of the new tile recovers the panned row.
    let u1 = shelf_deselected_tiles(s1);
    assert(t2[c + 1].wf() && !t2[c + 1].selected);
    lemma_select_unselect_round_trip(t2[c + 1]);
    assert forall|k: int| 0 <= k < n implies #[trigger] u1[k] == t2[k] by {
        if k == c + 1 {
            assert(s1.tiles[k] == tile_select_spec(t2[c + 1]));
        } else {
            assert(s1.tiles[k] == t2[k]);
        }
    }
    assert(u1 =~= t2);

    // The reverse pan puts every tile back at its base position in `s`.
    let m2 = left_mid_tiles(s1);
    assert(s1.padding == p);
    assert forall|k: int| 0 <= k < n implies #[trigger] m2[k] == t1[k] by {
        assert(t2[k] == tile_with_x(t1[k], t2[k].rect.x));
        assert(t2[k].rect.width == w);
        assert(t1[k].rect.x == s.expected_tile_x(k));
        let sn = ShelfV { selected_tile: c + 1, ..s };
        if c == 0 {
            assert(s1.selected_tile == 1);
            assert(m2[k] == tile_with_x(u1[k], u1[k].rect.x + u1[k].rect.width / 2 + p));
            assert(t2[k].rect.x == sn.expected_tile_x(k));
            assert(sn.expected_tile_x(k) == -(w / 2) + k * s.step());
            assert(s.expected_tile_x(k) == p + k * s.step());
        } else {
            assert(s1.selected_tile == c + 1 >= 2);
            if k == n - 1 {
                assert(m2[k] == tile_with_x(u1[k], u1[k].rect.x + u1[k].rect.width + p));
                assert(t2[k].rect.x == sn.expected_tile_x(k));
                assert(k >= c);
                assert(sn.expected_tile_x(k) == -(w / 2) + (k - c) * s.step());
                vstd::arithmetic::mul::lemma_mul_is_distributive_add_other_way(
                    s.step(),
                    k - c,
                    1,
                );
                assert((k - c) * s.step() + s.step() == (k - c + 1) * s.step());
                assert(s.expected_tile_x(k) == -(w / 2) + (k - (c - 1)) * s.step());
            } else {
                assert(m2[k] == tile_with_x(u1[k], u1[k + 1].rect.x));
                assert(t2[k + 1].rect.x == sn.expected_tile_x(k + 1));
                if k + 1 <= c - 1 {
                    assert(sn.expected_tile_x(k + 1) == -(w / 2) - p);
                    assert(k <= c - 2);
                    assert(s.expected_tile_x(k) == -(w / 2) - p);
                } else {
                    assert(sn.expected_tile_x(k + 1) == -(w / 2) + (k + 1 - c) * s.step());
                    assert((k + 1 - c) == (k - (c - 1)));
                    assert(s.expected_tile_x(k) == -(w / 2) + (k - (c - 1)) * s.step());
                }
            }
        }
    }

    // Re-selecting the original tile restores it exactly.
    let s2 = shelf_left_spec(s1);
    assert(s2.tiles == m2.update(c, tile_select_spec(m2[c])));
    assert(m2[c] == t1[c]);
    assert(t1[c] == tile_unselect_spec(s.tiles[c]));
    assert(s.tiles[c].wf() && s.tiles[c].selected);
    lemma_unselect_select_round_trip(s.tiles[c]);
    assert forall|k: int| 0 <= k < n implies #[trigger] s2.tiles[k] == s.tiles[k] by {
        if k == c {
            assert(s2.tiles[k] == tile_select_spec(m2[c]));
        } else {
            assert(s2.tiles[k] == m2[k]);
            assert(m2[k] == t1[k]);
            assert(t1[k] == s.tiles[k]);
        }
    }
    assert(s2.tiles =~= s.tiles);
    assert(s2 == s);
}

/// Left then right from any valid non-boundary selected tile restores
/// the shelf exactly: the selected index and every tile's position.
pub proof fn lemma_left_then_right_round_trip(s: ShelfV)
    requires
        s.wf(),
        s.selected,
        0 < s.selected_tile < s.tiles.len(),
    ensures
        shelf_right_spec(shelf_left_spec(s)) == s,
{
    let c = s.selected_tile;
    let n = s.tiles.len() as int;
    let w = s.tile_w();
    let p = s.padding;
    lemma_deselected_tiles_facts(s);
    lemma_left_mid_facts(s);
    lemma_left_wf(s);
    let t1 = shelf_deselected_tiles(s);
    let t2 = left_mid_tiles(s);
    let s1 = shelf_left_spec(s);
    assert(s1.selected_tile == c - 1);
    assert(s1.tiles == t2.update(c - 1, tile_select_spec(t2[c - 1])));

    let u1 = shelf_deselected_tiles(s1);
    assert(t2[c - 1].wf() && !t2[c - 1].selected);
    lemma_select_unselect_round_trip(t2[c - 1]);
    assert forall|k: int| 0 <= k < n implies #[trigger] u1[k] == t2[k] by {
        if k == c - 1 {
            assert(s1.tiles[k] == tile_select_spec(t2[c - 1]));
        } else {
            assert(s1.tiles[k] == t2[k]);
        }
    }
    assert(u1 =~= t2);

    let m2 = right_mid_tiles(s1);
    assert(s1.padding == p);
    assert forall|k: int| 0 <= k < n implies #[trigger] m2[k] == t1[k] by {
        assert(t2[k] == tile_with_x(t1[k], t2[k].rect.x));
        assert(t2[k].rect.width == w);
        assert(t1[k].rect.x == s.expected_tile_x(k));
        let sn = ShelfV { selected_tile: c - 1, ..s };
        if c == 1 {
            assert(s1.selected_tile == 0);
            assert(m2[k] == tile_with_x(u1[k], u1[k].rect.x - u1[k].rect.width / 2 - p));
            assert(t2[k].rect.x == sn.expected_tile_x(k));
            assert(sn.expected_tile_x(k) == p + k * s.step());
            assert(s.expected_tile_x(k) == -(w / 2) + k * s.step());
        } else {
            assert(s1.selected_tile == c - 1 >= 1);
            if k == 0 {
                assert(m2[k] == tile_with_x(u1[0], -(u1[0].rect.width / 2) - p));
                assert(0 <= c - 2);
                assert(s.expected_tile_x(0) == -(w / 2) - p);
            } else {
                assert(m2[k] == tile_with_x(u1[k], u1[k - 1].rect.x));
                assert(t2[k - 1].rect.x == sn.expected_tile_x(k - 1));
                if k - 1 <= c - 3 {
                    assert(sn.expected_tile_x(k - 1) == -(w / 2) - p);
                    assert(k <= c - 2);
                    assert(s.expected_tile_x(k) == -(w / 2) - p);
                } else {
                    assert(sn.expected_tile_x(k - 1) == -(w / 2) + (k - 1 - (c - 2)) * s.step());
                    assert((k - 1 - (c - 2)) == (k - (c - 1)));
                    assert(s.expected_tile_x(k) == -(w / 2) + (k - (c - 1)) * s.step());
                }
            }
        }
    }

    let s2 = shelf_right_spec(s1);
    assert(s1.selected_tile < s1.tiles.len() - 1 <==> c < n);
    assert(s2.tiles == m2.update(c, tile_select_spec(m2[c])));
    assert(m2[c] == t1[c]);
    assert(t1[c] == tile_unselect_spec(s.tiles[c]));
    assert(s.tiles[c].wf() && s.tiles[c].selected);
    lemma_unselect_select_round_trip(s.tiles[c]);
    assert forall|k: int| 0 <= k < n implies #[trigger] s2.tiles[k] == s.tiles[k] by {
        if k == c {
            assert(s2.tiles[k] == tile_select_spec(m2[c]));
        } else {
            assert(s2.tiles[k] == m2[k]);
            assert(m2[k] == t1[k]);
            assert(t1[k] == s.tiles[k]);
        }
    }
    assert(s2.tiles =~= s.tiles);
    assert(s2 == s);
}

} // verus!
