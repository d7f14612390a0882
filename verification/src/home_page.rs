//! The home page: the vertical stack of shelves, the selected row, and
//! the application of directional input and image events to it.
//!
//! Shelves are created once, in catalog order, stacked top to bottom
//! with a fixed padding.  Moving the selection down past the second row
//! scrolls every shelf up by one row height; moving back up mirrors it.
//! Exactly one shelf — and within it exactly one tile — is selected at
//! any time.

use vstd::prelude::*;

use crate::event::{ImageLoadBatchEvent, ImageLoadEvent};
use crate::layout::{default_size_label, MAX_COUNT, MAX_DIM, ROW_Y_BOUND};
use crate::model::ContentSet;
use crate::shelf::{
    lemma_shelf_select_wf, lemma_shelf_set_y_wf, lemma_shelf_unselect_wf, shelf_apply_image_spec,
    shelf_left_spec, shelf_load_spec, shelf_right_spec, shelf_select_spec, shelf_set_y_spec,
    shelf_unselect_spec, first_url_match, Shelf, ShelfV,
};

verus! {

/// Mathematical value of a [`HomePage`].
pub struct PageV {
    pub shelf_padding: int,
    pub tile_padding: int,
    pub shelves: Seq<ShelfV>,
    pub selected_row: int,
    pub shelf_height: int,
}

impl PageV {
    /// How many times the viewport has scrolled down: the selection must
    /// move past the second row before anything scrolls, so the first
    /// two rows never leave the top.
    pub open spec fn scroll_count(self) -> int {
        if self.selected_row <= 1 {
            0
        } else {
            self.selected_row - 1
        }
    }

    /// The vertical distance between two neighbouring shelf corners.
    pub open spec fn row_step(self) -> int {
        self.shelf_height + self.shelf_padding
    }

    /// The y position of shelf `i` in any reachable state: the initial
    /// stack, shifted up once per scroll.
    pub open spec fn expected_shelf_y(self, i: int) -> int {
        self.shelf_padding + (i - self.scroll_count()) * self.row_step()
    }

    /// Validity of the page: every shelf is valid and non-empty, shares
    /// the configured geometry, exactly the selected row is selected,
    /// and every shelf sits at the y position the scroll state gives.
    pub open spec fn wf(self) -> bool {
        &&& 0 <= self.shelf_padding <= MAX_DIM as int
        &&& 0 <= self.tile_padding <= MAX_DIM as int
        &&& self.tile_padding <= self.shelf_height <= MAX_DIM as int
        &&& self.shelves.len() <= MAX_COUNT as int
        &&& (self.shelves.len() == 0 ==> self.selected_row == 0)
        &&& (self.shelves.len() > 0 ==> 0 <= self.selected_row < self.shelves.len())
        &&& (forall|i: int| 0 <= i < self.shelves.len() ==> (#[trigger] self.shelves[i]).wf())
        &&& (forall|i: int| 0 <= i < self.shelves.len()
            ==> (#[trigger] self.shelves[i]).tiles.len() > 0)
        &&& (forall|i: int| 0 <= i < self.shelves.len()
            ==> (#[trigger] self.shelves[i]).padding == self.tile_padding)
        &&& (forall|i: int| 0 <= i < self.shelves.len()
            ==> (#[trigger] self.shelves[i]).height == self.shelf_height)
        &&& (forall|i: int| 0 <= i < self.shelves.len()
            ==> ((#[trigger] self.shelves[i]).selected <==> i == self.selected_row))
        &&& (forall|i: int| 0 <= i < self.shelves.len()
            ==> (#[trigger] self.shelves[i]).rect.y == self.expected_shelf_y(i))
    }
}

/// Where an image event was routed.
#[derive(Clone, Copy, Debug, PartialEq, Eq)]
pub enum RouteOutcome {
    /// A shelf and a tile matched; the payload was attached.
    Applied,
    /// No shelf title matched: a routing miss, nothing changed.
    NoShelf,
    /// A shelf matched but no tile URL did: a routing miss, nothing
    /// changed.
    NoTile,
}

/// Index of the first shelf whose title equals `title`, or -1.
pub open spec fn first_title_match(shelves: Seq<ShelfV>, title: Seq<char>) -> int
    decreases shelves.len(),
{
    if shelves.len() == 0 {
        -1
    } else if shelves[0].title == title {
        0
    } else {
        let r = first_title_match(shelves.drop_first(), title);
        if r == -1 {
            -1
        } else {
            r + 1
        }
    }
}

proof fn lemma_first_title_match_at(shelves: Seq<ShelfV>, title: Seq<char>, i: int)
    requires
        0 <= i < shelves.len(),
        forall|j: int| 0 <= j < i ==> (#[trigger] shelves[j]).title != title,
        shelves[i].title == title,
    ensures
        first_title_match(shelves, title) == i,
    decreases i,
{
    if i > 0 {
        lemma_first_title_match_at(shelves.drop_first(), title, i - 1);
    }
}

proof fn lemma_first_title_match_none(shelves: Seq<ShelfV>, title: Seq<char>)
    requires
        forall|j: int| 0 <= j < shelves.len() ==> (#[trigger] shelves[j]).title != title,
    ensures
        first_title_match(shelves, title) == -1,
    decreases shelves.len(),
{
    if shelves.len() > 0 {
        lemma_first_title_match_none(shelves.drop_first(), title);
    }
}

/// What an image event does to the page: it is routed to the first
/// shelf whose title matches, and within it to the first tile whose URL
/// matches; with no matching shelf, nothing changes.
pub open spec fn page_apply_image_spec(p: PageV, title: Seq<char>, url: Seq<char>, b: bytes::Bytes) -> PageV {
    let i = first_title_match(p.shelves, title);
    if i == -1 {
        p
    } else {
        PageV { shelves: p.shelves.update(i, shelf_apply_image_spec(p.shelves[i], url, b)), ..p }
    }
}

/// Where an image event with this title and URL is routed.
pub open spec fn page_route_spec(p: PageV, title: Seq<char>, url: Seq<char>) -> RouteOutcome {
    let i = first_title_match(p.shelves, title);
    if i == -1 {
        RouteOutcome::NoShelf
    } else if first_url_match(p.shelves[i].tiles, url) >= 0 {
        RouteOutcome::Applied
    } else {
        RouteOutcome::NoTile
    }
}

/// One event of a batch, applied to the page.
pub open spec fn page_apply_event_spec(p: PageV, ev: ImageLoadEvent) -> PageV {
    page_apply_image_spec(p, ev.content_set_title@, ev.img_url@, ev.bytes)
}

/// A whole batch applied to the page, event by event, in order.
pub open spec fn page_apply_batch_spec(p: PageV, events: Seq<ImageLoadEvent>) -> PageV
    decreases events.len(),
{
    if events.len() == 0 {
        p
    } else {
        page_apply_batch_spec(page_apply_event_spec(p, events[0]), events.drop_first())
    }
}

/// The shelves after a downward move's scroll, before the new row is
/// selected: the current row reverted, and — once the selection has
/// moved past the second row — every shelf shifted up by one row step.
pub open spec fn down_mid_shelves(p: PageV) -> Seq<ShelfV> {
    let s = p.selected_row;
    let sh1 = p.shelves.update(s, shelf_unselect_spec(p.shelves[s]));
    if s > 0 {
        Seq::new(
            sh1.len(),
            |i: int| shelf_set_y_spec(sh1[i], sh1[i].rect.y - sh1[i].height - p.shelf_padding),
        )
    } else {
        sh1
    }
}

/// The shelves after an upward move's scroll, before the new row is
/// selected: the mirror of [`down_mid_shelves`], shifting down only
/// while the pre-move selection was at least two rows in.
pub open spec fn up_mid_shelves(p: PageV) -> Seq<ShelfV> {
    let s = p.selected_row;
    let sh1 = p.shelves.update(s, shelf_unselect_spec(p.shelves[s]));
    if s >= 2 {
        Seq::new(
            sh1.len(),
            |i: int| shelf_set_y_spec(sh1[i], sh1[i].rect.y + sh1[i].height + p.shelf_padding),
        )
    } else {
        sh1
    }
}

/// What a downward key does: nothing at the last row; otherwise
/// unselect the current row, scroll if past the second row, and select
/// the next one.
pub open spec fn page_down_spec(p: PageV) -> PageV {
    if p.shelves.len() > 0 && p.selected_row < p.shelves.len() - 1 {
        let s = p.selected_row;
        let mid = down_mid_shelves(p);
        PageV { shelves: mid.update(s + 1, shelf_select_spec(mid[s + 1])), selected_row: s + 1, ..p }
    } else {
        p
    }
}

/// What an upward key does: nothing at the first row; otherwise
/// unselect the current row, scroll back unless the first two rows are
/// reached, and select the previous one.
pub open spec fn page_up_spec(p: PageV) -> PageV {
    if p.selected_row > 0 {
        let s = p.selected_row;
        let mid = up_mid_shelves(p);
        PageV { shelves: mid.update(s - 1, shelf_select_spec(mid[s - 1])), selected_row: s - 1, ..p }
    } else {
        p
    }
}

/// What a rightward key does: it is forwarded to the selected shelf.
pub open spec fn page_right_spec(p: PageV) -> PageV {
    if p.shelves.len() > 0 {
        PageV {
            shelves: p.shelves.update(
                p.selected_row,
                shelf_right_spec(p.shelves[p.selected_row]),
            ),
            ..p
        }
    } else {
        p
    }
}

/// What a leftward key does: it is forwarded to the selected shelf.
pub open spec fn page_left_spec(p: PageV) -> PageV {
    if p.shelves.len() > 0 {
        PageV {
            shelves: p.shelves.update(
                p.selected_row,
                shelf_left_spec(p.shelves[p.selected_row]),
            ),
            ..p
        }
    } else {
        p
    }
}

/// The page built from a resolved catalog: one shelf per content set,
/// in catalog order, stacked with the shelf padding, and the first row
/// selected.
pub open spec fn page_load_spec(sets: Seq<ContentSet>, sp: int, sh: int, tp: int) -> PageV {
    let shelves0 = Seq::new(
        sets.len(),
        |i: int| shelf_load_spec(sets[i], sh, tp, sp + i * (sh + sp)),
    );
    let shelves = if sets.len() > 0 {
        shelves0.update(0, shelf_select_spec(shelves0[0]))
    } else {
        shelves0
    };
    PageV { shelf_padding: sp, tile_padding: tp, shelves, selected_row: 0, shelf_height: sh }
}

/// The closed-form shelf positions all fit comfortably within the
/// vertical position bound, with room for one more row step.
proof fn lemma_expected_y_bound(p: PageV, i: int)
    requires
        0 <= p.shelf_padding <= MAX_DIM as int,
        0 <= p.shelf_height <= MAX_DIM as int,
        p.shelves.len() <= MAX_COUNT as int,
        0 <= i < p.shelves.len(),
        0 <= p.selected_row < p.shelves.len(),
    ensures
        -210_000_000 <= p.expected_shelf_y(i) <= 210_000_000,
{
    let m = i - p.scroll_count();
    let step = p.row_step();
    assert(0 <= step <= 20_000);
    assert(-(MAX_COUNT as int) <= m <= MAX_COUNT as int);
    vstd::arithmetic::mul::lemma_mul_inequality(m, MAX_COUNT as int, step);
    vstd::arithmetic::mul::lemma_mul_inequality(-(MAX_COUNT as int), m, step);
    vstd::arithmetic::mul::lemma_mul_inequality(step, 20_000, MAX_COUNT as int);
    assert(m * step <= (MAX_COUNT as int) * step);
    assert((MAX_COUNT as int) * step == step * (MAX_COUNT as int)) by (nonlinear_arith);
    assert(-((MAX_COUNT as int) * step) <= m * step);
}

/// After the scroll of a downward move, every shelf is valid,
/// unselected, and sits at the y position of the incremented selection.
proof fn lemma_down_mid_facts(p: PageV)
    requires
        p.wf(),
        p.shelves.len() > 0,
        p.selected_row < p.shelves.len() - 1,
    ensures
        ({
            let sh1 = p.shelves.update(
                p.selected_row,
                shelf_unselect_spec(p.shelves[p.selected_row]),
            );
            let mid = down_mid_shelves(p);
            let pn = PageV { selected_row: p.selected_row + 1, ..p };
            &&& forall|i: int| 0 <= i < sh1.len() ==> (#[trigger] sh1[i]).wf()
            &&& forall|i: int| 0 <= i < sh1.len()
                ==> -(ROW_Y_BOUND as int) <= (#[trigger] sh1[i]).rect.y - sh1[i].height
                    - p.shelf_padding <= ROW_Y_BOUND as int
            &&& mid.len() == p.shelves.len()
            &&& forall|i: int| 0 <= i < mid.len() ==> (#[trigger] mid[i]).wf()
            &&& forall|i: int| 0 <= i < mid.len() ==> !(#[trigger] mid[i]).selected
            &&& forall|i: int| 0 <= i < mid.len()
                ==> (#[trigger] mid[i]).rect.y == pn.expected_shelf_y(i)
            &&& forall|i: int| 0 <= i < mid.len()
                ==> (#[trigger] mid[i]).tiles.len() == p.shelves[i].tiles.len()
            &&& forall|i: int| 0 <= i < mid.len() ==> (#[trigger] mid[i]).height == p.shelves[i].height
            &&& forall|i: int| 0 <= i < mid.len()
                ==> (#[trigger] mid[i]).padding == p.shelves[i].padding
            &&& forall|i: int| 0 <= i < mid.len() ==> (#[trigger] mid[i]).title == p.shelves[i].title
        }),
{
    let s = p.selected_row;
    let sh1 = p.shelves.update(s, shelf_unselect_spec(p.shelves[s]));
    let mid = down_mid_shelves(p);
    let pn = PageV { selected_row: s + 1, ..p };
    assert(p.shelves[s].wf() && p.shelves[s].tiles.len() > 0);
    lemma_shelf_unselect_wf(p.shelves[s]);
    assert forall|i: int| 0 <= i < sh1.len() implies (#[trigger] sh1[i]).wf() && !sh1[i].selected
        && sh1[i].rect.y == p.expected_shelf_y(i) && sh1[i].tiles.len() == p.shelves[i].tiles.len()
        && sh1[i].height == p.shelves[i].height && sh1[i].padding == p.shelves[i].padding
        && sh1[i].title == p.shelves[i].title
        && -(ROW_Y_BOUND as int) <= sh1[i].rect.y - sh1[i].height - p.shelf_padding
        && sh1[i].rect.y - sh1[i].height - p.shelf_padding <= ROW_Y_BOUND as int by {
        assert(p.shelves[i].wf());
        lemma_expected_y_bound(p, i);
        if i == s {
            assert(sh1[i] == shelf_unselect_spec(p.shelves[s]));
        } else {
            assert(sh1[i] == p.shelves[i]);
        }
    }
    if s > 0 {
        assert forall|i: int| 0 <= i < mid.len() implies (#[trigger] mid[i]).wf()
            && !mid[i].selected && mid[i].rect.y == pn.expected_shelf_y(i)
            && mid[i].tiles.len() == p.shelves[i].tiles.len()
            && mid[i].height == p.shelves[i].height && mid[i].padding == p.shelves[i].padding
            && mid[i].title == p.shelves[i].title by {
            let ny = sh1[i].rect.y - sh1[i].height - p.shelf_padding;
            assert(mid[i] == shelf_set_y_spec(sh1[i], ny));
            assert(sh1[i].height == p.shelf_height);
            assert((i - p.scroll_count()) * p.row_step() - p.row_step()
                == (i - p.scroll_count() - 1) * p.row_step()) by (nonlinear_arith);
            assert(pn.scroll_count() == p.scroll_count() + 1);
            assert(ny == pn.expected_shelf_y(i));
            lemma_expected_y_bound(pn, i);
            lemma_shelf_set_y_wf(sh1[i], ny);
        }
    } else {
        assert forall|i: int| 0 <= i < mid.len()
            implies (#[trigger] mid[i]).rect.y == pn.expected_shelf_y(i) by {
            assert(mid[i] == sh1[i]);
            assert(pn.scroll_count() == p.scroll_count());
        }
    }
}

/// After the scroll of an upward move, every shelf is valid,
/// unselected, and sits at the y position of the decremented selection.
proof fn lemma_up_mid_facts(p: PageV)
    requires
        p.wf(),
        p.selected_row > 0,
    ensures
        ({
            let sh1 = p.shelves.update(
                p.selected_row,
                shelf_unselect_spec(p.shelves[p.selected_row]),
            );
            let mid = up_mid_shelves(p);
            let pn = PageV { selected_row: p.selected_row - 1, ..p };
            &&& forall|i: int| 0 <= i < sh1.len() ==> (#[trigger] sh1[i]).wf()
            &&& forall|i: int| 0 <= i < sh1.len()
                ==> -(ROW_Y_BOUND as int) <= (#[trigger] sh1[i]).rect.y + sh1[i].height
                    + p.shelf_padding <= ROW_Y_BOUND as int
            &&& mid.len() == p.shelves.len()
            &&& forall|i: int| 0 <= i < mid.len() ==> (#[trigger] mid[i]).wf()
            &&& forall|i: int| 0 <= i < mid.len() ==> !(#[trigger] mid[i]).selected
            &&& forall|i: int| 0 <= i < mid.len()
                ==> (#[trigger] mid[i]).rect.y == pn.expected_shelf_y(i)
            &&& forall|i: int| 0 <= i < mid.len()
                ==> (#[trigger] mid[i]).tiles.len() == p.shelves[i].tiles.len()
            &&& forall|i: int| 0 <= i < mid.len() ==> (#[trigger] mid[i]).height == p.shelves[i].height
            &&& forall|i: int| 0 <= i < mid.len()
                ==> (#[trigger] mid[i]).padding == p.shelves[i].padding
            &&& forall|i: int| 0 <= i < mid.len() ==> (#[trigger] mid[i]).title == p.shelves[i].title
        }),
{
    let s = p.selected_row;
    let sh1 = p.shelves.update(s, shelf_unselect_spec(p.shelves[s]));
    let mid = up_mid_shelves(p);
    let pn = PageV { selected_row: s - 1, ..p };
    assert(p.shelves[s].wf() && p.shelves[s].tiles.len() > 0);
    lemma_shelf_unselect_wf(p.shelves[s]);
    assert forall|i: int| 0 <= i < sh1.len() implies (#[trigger] sh1[i]).wf() && !sh1[i].selected
        && sh1[i].rect.y == p.expected_shelf_y(i) && sh1[i].tiles.len() == p.shelves[i].tiles.len()
        && sh1[i].height == p.shelves[i].height && sh1[i].padding == p.shelves[i].padding
        && sh1[i].title == p.shelves[i].title
        && -(ROW_Y_BOUND as int) <= sh1[i].rect.y + sh1[i].height + p.shelf_padding
        && sh1[i].rect.y + sh1[i].height + p.shelf_padding <= ROW_Y_BOUND as int by {
        assert(p.shelves[i].wf());
        lemma_expected_y_bound(p, i);
        if i == s {
            assert(sh1[i] == shelf_unselect_spec(p.shelves[s]));
        } else {
            assert(sh1[i] == p.shelves[i]);
        }
    }
    if s >= 2 {
        assert forall|i: int| 0 <= i < mid.len() implies (#[trigger] mid[i]).wf()
            && !mid[i].selected && mid[i].rect.y == pn.expected_shelf_y(i)
            && mid[i].tiles.len() == p.shelves[i].tiles.len()
            && mid[i].height == p.shelves[i].height && mid[i].padding == p.shelves[i].padding
            && mid[i].title == p.shelves[i].title by {
            let ny = sh1[i].rect.y + sh1[i].height + p.shelf_padding;
            assert(mid[i] == shelf_set_y_spec(sh1[i], ny));
            assert(sh1[i].height == p.shelf_height);
            assert((i - p.scroll_count()) * p.row_step() + p.row_step()
                == (i - p.scroll_count() + 1) * p.row_step()) by (nonlinear_arith);
            assert(pn.scroll_count() == p.scroll_count() - 1);
            assert(ny == pn.expected_shelf_y(i));
            lemma_expected_y_bound(pn, i);
            lemma_shelf_set_y_wf(sh1[i], ny);
        }
    } else {
        assert forall|i: int| 0 <= i < mid.len()
            implies (#[trigger] mid[i]).rect.y == pn.expected_shelf_y(i) by {
            assert(mid[i] == sh1[i]);
            assert(pn.scroll_count() == p.scroll_count());
        }
    }
}

/// A downward move preserves page validity.
proof fn lemma_page_down_wf(p: PageV)
    requires
        p.wf(),
    ensures
        page_down_spec(p).wf(),
        page_down_spec(p).shelves.len() == p.shelves.len(),
        p.shelves.len() > 0 && p.selected_row < p.shelves.len() - 1
            ==> page_down_spec(p).selected_row == p.selected_row + 1,
        !(p.shelves.len() > 0 && p.selected_row < p.shelves.len() - 1)
            ==> page_down_spec(p) == p,
{
    if p.shelves.len() > 0 && p.selected_row < p.shelves.len() - 1 {
        lemma_down_mid_facts(p);
        let s = p.selected_row;
        let mid = down_mid_shelves(p);
        let p2 = page_down_spec(p);
        assert(mid[s + 1].wf() && mid[s + 1].tiles.len() > 0);
        lemma_shelf_select_wf(mid[s + 1]);
        assert forall|i: int| 0 <= i < p2.shelves.len() implies (#[trigger] p2.shelves[i]).wf()
            && p2.shelves[i].tiles.len() > 0 && p2.shelves[i].padding == p2.tile_padding
            && p2.shelves[i].height == p2.shelf_height
            && (p2.shelves[i].selected <==> i == p2.selected_row)
            && p2.shelves[i].rect.y == p2.expected_shelf_y(i) by {
            assert(mid[i].wf());
            assert(p.shelves[i].wf());
            if i == s + 1 {
                assert(p2.shelves[i] == shelf_select_spec(mid[i]));
            } else {
                assert(p2.shelves[i] == mid[i]);
            }
        }
    }
}

/// An upward move preserves page validity.
proof fn lemma_page_up_wf(p: PageV)
    requires
        p.wf(),
    ensures
        page_up_spec(p).wf(),
        page_up_spec(p).shelves.len() == p.shelves.len(),
        p.selected_row > 0 ==> page_up_spec(p).selected_row == p.selected_row - 1,
        p.selected_row == 0 ==> page_up_spec(p) == p,
{
    if p.selected_row > 0 {
        lemma_up_mid_facts(p);
        let s = p.selected_row;
        let mid = up_mid_shelves(p);
        let p2 = page_up_spec(p);
        assert(mid[s - 1].wf() && mid[s - 1].tiles.len() > 0);
        lemma_shelf_select_wf(mid[s - 1]);
        assert forall|i: int| 0 <= i < p2.shelves.len() implies (#[trigger] p2.shelves[i]).wf()
            && p2.shelves[i].tiles.len() > 0 && p2.shelves[i].padding == p2.tile_padding
            && p2.shelves[i].height == p2.shelf_height
            && (p2.shelves[i].selected <==> i == p2.selected_row)
            && p2.shelves[i].rect.y == p2.expected_shelf_y(i) by {
            assert(mid[i].wf());
            assert(p.shelves[i].wf());
            if i == s - 1 {
                assert(p2.shelves[i] == shelf_select_spec(mid[i]));
            } else {
                assert(p2.shelves[i] == mid[i]);
            }
        }
    }
}

/// The main screen of the application: the root of the shelf tree.
pub struct HomePage {
    shelf_padding: u32,
    tile_padding: u32,
    shelves: Vec<Shelf>,
    selected_row: usize,
    shelf_height: u32,
}

impl View for HomePage {
    type V = PageV;

    closed spec fn view(&self) -> PageV {
        PageV {
            shelf_padding: self.shelf_padding as int,
            tile_padding: self.tile_padding as int,
            shelves: Seq::new(self.shelves@.len(), |i: int| self.shelves@[i]@),
            selected_row: self.selected_row as int,
            shelf_height: self.shelf_height as int,
        }
    }
}

impl HomePage {
    /// Builds the page from a resolved catalog, without rendering
    /// anything: shelf count equals set count, shelf order equals
    /// catalog order, and the first row starts out selected.
    pub fn load(
        content_sets: Vec<ContentSet>,
        shelf_padding: u32,
        shelf_height: u32,
        tile_padding: u32,
    ) -> (r: HomePage)
        requires
            shelf_padding <= MAX_DIM,
            tile_padding <= shelf_height,
            shelf_height <= MAX_DIM,
            content_sets@.len() <= MAX_COUNT as int,
            forall|i: int| 0 <= i < content_sets@.len()
                ==> (#[trigger] content_sets@[i]).items@.len() > 0,
            forall|i: int| 0 <= i < content_sets@.len()
                ==> (#[trigger] content_sets@[i]).items@.len() <= MAX_COUNT as int,
            forall|i: int, j: int|
                0 <= i < content_sets@.len() && 0 <= j < content_sets@[i].items@.len()
                    ==> (#[trigger] content_sets@[i].items@[j]).spec_tile_image_url(
                        default_size_label(),
                    ) is Some,
        ensures
            r@ == page_load_spec(
                content_sets@,
                shelf_padding as int,
                shelf_height as int,
                tile_padding as int,
            ),
            r@.wf(),
            r@.shelves.len() == content_sets@.len(),
            forall|i: int| 0 <= i < content_sets@.len()
                ==> (#[trigger] r@.shelves[i]).title == content_sets@[i].spec_title(),
    {
        let ghost setsv: Seq<ContentSet> = content_sets@;
        let ghost pv = page_load_spec(
            setsv,
            shelf_padding as int,
            shelf_height as int,
            tile_padding as int,
        );
        let mut sets = content_sets;
        let mut shelves: Vec<Shelf> = Vec::new();
        let mut y_pos: i32 = shelf_padding as i32;
        while sets.len() > 0
            invariant
                setsv.len() <= MAX_COUNT as int,
                shelf_padding <= MAX_DIM,
                tile_padding <= shelf_height <= MAX_DIM,
                forall|i: int| 0 <= i < setsv.len()
                    ==> (#[trigger] setsv[i]).items@.len() <= MAX_COUNT as int,
                forall|i: int, j: int|
                    0 <= i < setsv.len() && 0 <= j < setsv[i].items@.len()
                        ==> (#[trigger] setsv[i].items@[j]).spec_tile_image_url(
                            default_size_label(),
                        ) is Some,
                shelves@.len() + sets@.len() == setsv.len(),
                sets@ == setsv.skip(shelves@.len() as int),
                y_pos as int == shelf_padding + shelves@.len() * (shelf_height + shelf_padding),
                y_pos as int <= MAX_DIM + shelves@.len() * 20_000,
                forall|j: int| 0 <= j < shelves@.len()
                    ==> (#[trigger] shelves@[j])@ == shelf_load_spec(
                        setsv[j],
                        shelf_height as int,
                        tile_padding as int,
                        shelf_padding + j * (shelf_height + shelf_padding),
                    ),
                forall|j: int| 0 <= j < shelves@.len() ==> (#[trigger] shelves@[j])@.wf(),
            decreases sets@.len(),
        {
            let ghost idx = shelves@.len() as int;
            let cs = sets.remove(0);
            proof {
                assert(cs == setsv[idx]);
                assert(sets@ == setsv.skip(idx + 1));
            }
            let shelf = Shelf::load(cs, shelf_height, tile_padding, y_pos);
            let sy = shelf.y();
            let sh_h = shelf.height();
            proof {
                vstd::arithmetic::mul::lemma_mul_is_distributive_add_other_way(
                    shelf_height as int + shelf_padding as int,
                    idx,
                    1,
                );
            }
            y_pos = sy + sh_h as i32 + shelf_padding as i32;
            shelves.push(shelf);
        }
        if shelves.len() > 0 {
            proof {
                assert(shelves@[0]@ == shelf_load_spec(
                    setsv[0],
                    shelf_height as int,
                    tile_padding as int,
                    shelf_padding as int + 0 * (shelf_height as int + shelf_padding as int),
                ));
                assert(shelves@[0]@.tiles.len() == setsv[0].items@.len());
            }
            shelves[0].select();
        }
        let page = HomePage {
            shelf_padding,
            tile_padding,
            shelves,
            selected_row: 0,
            shelf_height,
        };
        proof {
            assert forall|i: int| 0 <= i < setsv.len()
                implies #[trigger] page@.shelves[i] == pv.shelves[i] by {
                if setsv.len() > 0 && i == 0 {
                    assert(pv.shelves[0] == shelf_select_spec(shelf_load_spec(
                        setsv[0],
                        shelf_height as int,
                        tile_padding as int,
                        shelf_padding as int + 0 * (shelf_height as int + shelf_padding as int),
                    )));
                }
            }
            assert(page@.shelves =~= pv.shelves);
            assert(page@ == pv);
            assert forall|i: int| 0 <= i < pv.shelves.len() implies (#[trigger] pv.shelves[i]).wf()
                && pv.shelves[i].tiles.len() > 0 && pv.shelves[i].padding == pv.tile_padding
                && pv.shelves[i].height == pv.shelf_height
                && (pv.shelves[i].selected <==> i == pv.selected_row)
                && pv.shelves[i].rect.y == pv.expected_shelf_y(i)
                && pv.shelves[i].title == setsv[i].spec_title() by {
                let base = shelf_load_spec(
                    setsv[i],
                    shelf_height as int,
                    tile_padding as int,
                    shelf_padding as int + i * (shelf_height as int + shelf_padding as int),
                );
                if i == 0 {
                    lemma_shelf_select_wf(base);
                    assert(pv.shelves[0] == shelf_select_spec(base));
                } else {
                    assert(pv.shelves[i] == base);
                }
            }
            assert(pv.wf());
        }
        page
    }

    /// Routes an image event: find the shelf by content-set title, then
    /// the tile by image URL, and attach the payload.  The outcome says
    /// whether the event was applied or was a routing miss.
    pub fn on_image_load(&mut self, event: ImageLoadEvent) -> (r: RouteOutcome)
        requires
            old(self)@.wf(),
        ensures
            final(self)@ == page_apply_image_spec(
                old(self)@,
                event.content_set_title@,
                event.img_url@,
                event.bytes,
            ),
            r == page_route_spec(old(self)@, event.content_set_title@, event.img_url@),
            final(self)@.wf(),
    {
        let n = self.shelves.len();
        let mut i: usize = 0;
        while i < n
            invariant
                n == self.shelves@.len(),
                n == old(self)@.shelves.len(),
                old(self)@.wf(),
                *self == *old(self),
                0 <= i <= n,
                forall|j: int| 0 <= j < i
                    ==> (#[trigger] old(self)@.shelves[j]).title != event.content_set_title@,
            decreases n - i,
        {
            proof {
                assert(self.shelves@[i as int]@ == old(self)@.shelves[i as int]);
            }
            if *self.shelves[i].title() == event.content_set_title {
                proof {
                    lemma_first_title_match_at(old(self)@.shelves, event.content_set_title@, i as int);
                }
                let found = self.shelves[i].on_image_load(event);
                proof {
                    let p0 = old(self)@;
                    let p2 = self@;
                    assert(p2.shelves =~= page_apply_image_spec(
                        p0,
                        event.content_set_title@,
                        event.img_url@,
                        event.bytes,
                    ).shelves);
                    assert(p2 == page_apply_image_spec(
                        p0,
                        event.content_set_title@,
                        event.img_url@,
                        event.bytes,
                    ));
                    let applied = shelf_apply_image_spec(
                        p0.shelves[i as int],
                        event.img_url@,
                        event.bytes,
                    );
                    crate::shelf::lemma_first_url_match_range(
                        p0.shelves[i as int].tiles,
                        event.img_url@,
                    );
                    assert forall|j: int| 0 <= j < p2.shelves.len()
                        implies (#[trigger] p2.shelves[j]).wf() && p2.shelves[j].tiles.len() > 0
                        && p2.shelves[j].padding == p2.tile_padding
                        && p2.shelves[j].height == p2.shelf_height
                        && (p2.shelves[j].selected <==> j == p2.selected_row)
                        && p2.shelves[j].rect.y == p2.expected_shelf_y(j) by {
                        assert(p0.shelves[j].wf());
                        assert(p0.shelves[j].rect.y == p0.expected_shelf_y(j));
                        assert(p2.expected_shelf_y(j) == p0.expected_shelf_y(j));
                        if j == i {
                            assert(p2.shelves[j] == applied);
                            assert(applied.wf());
                            assert(applied.tiles.len() == p0.shelves[j].tiles.len());
                            assert(applied.rect == p0.shelves[j].rect);
                            assert(applied.height == p0.shelves[j].height);
                            assert(applied.padding == p0.shelves[j].padding);
                            assert(applied.selected == p0.shelves[j].selected);
                        } else {
                            assert(p2.shelves[j] == p0.shelves[j]);
                        }
                    }
                    assert(p2.wf());
                }
                if found {
                    return RouteOutcome::Applied;
                } else {
                    return RouteOutcome::NoTile;
                }
            }
            i = i + 1;
        }
        proof {
            lemma_first_title_match_none(old(self)@.shelves, event.content_set_title@);
        }
        RouteOutcome::NoShelf
    }

    /// Applies a delivered batch as one unit of work: every contained
    /// event is routed in order.
    pub fn on_image_batch(&mut self, batch: ImageLoadBatchEvent)
        requires
            old(self)@.wf(),
        ensures
            final(self)@ == page_apply_batch_spec(old(self)@, batch.events@),
            final(self)@.wf(),
    {
        let mut events = batch.events;
        let ghost all: Seq<ImageLoadEvent> = events@;
        while events.len() > 0
            invariant
                self@.wf(),
                page_apply_batch_spec(old(self)@, all) == page_apply_batch_spec(self@, events@),
            decreases events@.len(),
        {
            let ghost before = events@;
            let ev = events.remove(0);
            proof {
                assert(ev == before[0]);
                assert(events@ =~= before.drop_first());
            }
            let _ = self.on_image_load(ev);
        }
        proof {
            assert(page_apply_batch_spec(self@, events@) == self@);
        }
    }

    /// Moves the selection one row down, scrolling once past the second
    /// row; a no-op at the last row.
    pub fn on_key_down(&mut self)
        requires
            old(self)@.wf(),
        ensures
            final(self)@ == page_down_spec(old(self)@),
            final(self)@.wf(),
    {
        let ghost p0 = old(self)@;
        proof {
            lemma_page_down_wf(p0);
        }
        if self.shelves.len() > 0 {
            let current_selection = self.selected_row;
            if current_selection < self.shelves.len() - 1 {
                proof {
                    lemma_down_mid_facts(p0);
                }
                let ghost sh1v = p0.shelves.update(
                    p0.selected_row,
                    shelf_unselect_spec(p0.shelves[p0.selected_row]),
                );
                let ghost midv = down_mid_shelves(p0);
                proof {
                    assert(self.shelves@[current_selection as int]@
                        == p0.shelves[current_selection as int]);
                }
                self.shelves[current_selection].unselect();
                proof {
                    assert forall|j: int| 0 <= j < self.shelves@.len()
                        implies (#[trigger] self.shelves@[j])@ == sh1v[j] by {
                        if j != current_selection {
                            assert(self.shelves@[j]@ == p0.shelves[j]);
                        }
                    }
                }
                if current_selection > 0 {
                    let n = self.shelves.len();
                    let mut i: usize = 0;
                    while i < n
                        invariant
                            n == self.shelves@.len(),
                            n == sh1v.len(),
                            n == midv.len(),
                            0 <= i <= n,
                            p0.wf(),
                            p0.shelves.len() == n,
                            0 < p0.selected_row < n - 1,
                            sh1v == p0.shelves.update(
                                p0.selected_row,
                                shelf_unselect_spec(p0.shelves[p0.selected_row]),
                            ),
                            midv == down_mid_shelves(p0),
                            self.shelf_padding == old(self).shelf_padding,
                            self.tile_padding == old(self).tile_padding,
                            self.selected_row == old(self).selected_row,
                            self.shelf_height == old(self).shelf_height,
                            self.shelf_padding as int == p0.shelf_padding,
                            forall|j: int| i <= j < n ==> (#[trigger] self.shelves@[j])@ == sh1v[j],
                            forall|j: int| 0 <= j < i ==> (#[trigger] self.shelves@[j])@ == midv[j],
                            forall|j: int| 0 <= j < n ==> (#[trigger] sh1v[j]).wf(),
                            forall|j: int| 0 <= j < n
                                ==> -(ROW_Y_BOUND as int)
                                    <= (#[trigger] sh1v[j]).rect.y - sh1v[j].height
                                        - p0.shelf_padding <= ROW_Y_BOUND as int,
                        decreases n - i,
                    {
                        proof {
                            assert(self.shelves@[i as int]@ == sh1v[i as int]);
                        }
                        let sy = self.shelves[i].y();
                        let sh_h = self.shelves[i].height();
                        let ny = sy - sh_h as i32 - self.shelf_padding as i32;
                        self.shelves[i].set_y(ny);
                        i = i + 1;
                    }
                } else {
                    proof {
                        assert(midv == sh1v);
                    }
                }
                self.selected_row = current_selection + 1;
                proof {
                    let idx = self.selected_row as int;
                    assert(self.shelves@[idx]@ == midv[idx]);
                    assert(midv[idx].wf() && midv[idx].tiles.len() > 0);
                }
                self.shelves[self.selected_row].select();
                proof {
                    let p2 = self@;
                    assert(p2.shelves =~= page_down_spec(p0).shelves);
                    assert(p2 == page_down_spec(p0));
                }
            }
        }
    }

    /// Moves the selection one row up, scrolling back unless the first
    /// two rows are reached; a no-op at the first row.
    pub fn on_key_up(&mut self)
        requires
            old(self)@.wf(),
        ensures
            final(self)@ == page_up_spec(old(self)@),
            final(self)@.wf(),
    {
        let ghost p0 = old(self)@;
        proof {
            lemma_page_up_wf(p0);
        }
        let current_selection = self.selected_row;
        if current_selection > 0 {
            proof {
                lemma_up_mid_facts(p0);
            }
            let ghost sh1v = p0.shelves.update(
                p0.selected_row,
                shelf_unselect_spec(p0.shelves[p0.selected_row]),
            );
            let ghost midv = up_mid_shelves(p0);
            proof {
                assert(self.shelves@[current_selection as int]@
                    == p0.shelves[current_selection as int]);
            }
            self.shelves[current_selection].unselect();
            proof {
                assert forall|j: int| 0 <= j < self.shelves@.len()
                    implies (#[trigger] self.shelves@[j])@ == sh1v[j] by {
                    if j != current_selection {
                        assert(self.shelves@[j]@ == p0.shelves[j]);
                    }
                }
            }
            if current_selection >= 2 {
                let n = self.shelves.len();
                let mut i: usize = 0;
                while i < n
                    invariant
                        n == self.shelves@.len(),
                        n == sh1v.len(),
                        n == midv.len(),
                        0 <= i <= n,
                        p0.wf(),
                        p0.shelves.len() == n,
                        2 <= p0.selected_row < n,
                        sh1v == p0.shelves.update(
                            p0.selected_row,
                            shelf_unselect_spec(p0.shelves[p0.selected_row]),
                        ),
                        midv == up_mid_shelves(p0),
                        self.shelf_padding == old(self).shelf_padding,
                        self.tile_padding == old(self).tile_padding,
                        self.selected_row == old(self).selected_row,
                        self.shelf_height == old(self).shelf_height,
                        self.shelf_padding as int == p0.shelf_padding,
                        forall|j: int| i <= j < n ==> (#[trigger] self.shelves@[j])@ == sh1v[j],
                        forall|j: int| 0 <= j < i ==> (#[trigger] self.shelves@[j])@ == midv[j],
                        forall|j: int| 0 <= j < n ==> (#[trigger] sh1v[j]).wf(),
                        forall|j: int| 0 <= j < n
                            ==> -(ROW_Y_BOUND as int)
                                <= (#[trigger] sh1v[j]).rect.y + sh1v[j].height
                                    + p0.shelf_padding <= ROW_Y_BOUND as int,
                    decreases n - i,
                {
                    proof {
                        assert(self.shelves@[i as int]@ == sh1v[i as int]);
                    }
                    let sy = self.shelves[i].y();
                    let sh_h = self.shelves[i].height();
                    let ny = sy + sh_h as i32 + self.shelf_padding as i32;
                    self.shelves[i].set_y(ny);
                    i = i + 1;
                }
            } else {
                proof {
                    assert(midv == sh1v);
                }
            }
            self.selected_row = current_selection - 1;
            proof {
                let idx = self.selected_row as int;
                assert(self.shelves@[idx]@ == midv[idx]);
                assert(midv[idx].wf() && midv[idx].tiles.len() > 0);
            }
            self.shelves[self.selected_row].select();
            proof {
                let p2 = self@;
                assert(p2.shelves =~= page_up_spec(p0).shelves);
                assert(p2 == page_up_spec(p0));
            }
        }
    }

    /// Forwards a rightward key to the selected shelf.
    pub fn on_key_right(&mut self)
        requires
            old(self)@.wf(),
        ensures
            final(self)@ == page_right_spec(old(self)@),
            final(self)@.wf(),
    {
        let ghost p0 = old(self)@;
        if self.shelves.len() > 0 {
            proof {
                assert(self.shelves@[self.selected_row as int]@
                    == p0.shelves[p0.selected_row]);
                assert(p0.shelves[p0.selected_row].wf());
            }
            self.shelves[self.selected_row].on_key_right();
            proof {
                let p2 = self@;
                assert(p2.shelves =~= page_right_spec(p0).shelves);
                assert(p2 == page_right_spec(p0));
                let moved = shelf_right_spec(p0.shelves[p0.selected_row]);
                assert forall|j: int| 0 <= j < p2.shelves.len()
                    implies (#[trigger] p2.shelves[j]).wf() && p2.shelves[j].tiles.len() > 0
                    && p2.shelves[j].padding == p2.tile_padding
                    && p2.shelves[j].height == p2.shelf_height
                    && (p2.shelves[j].selected <==> j == p2.selected_row)
                    && p2.shelves[j].rect.y == p2.expected_shelf_y(j) by {
                    assert(p0.shelves[j].wf());
                    if j == p0.selected_row {
                        assert(p2.shelves[j] == moved);
                    } else {
                        assert(p2.shelves[j] == p0.shelves[j]);
                    }
                }
                assert(p2.wf());
            }
        }
    }

    /// Forwards a leftward key to the selected shelf.
    pub fn on_key_left(&mut self)
        requires
            old(self)@.wf(),
        ensures
            final(self)@ == page_left_spec(old(self)@),
            final(self)@.wf(),
    {
        let ghost p0 = old(self)@;
        if self.shelves.len() > 0 {
            proof {
                assert(self.shelves@[self.selected_row as int]@
                    == p0.shelves[p0.selected_row]);
                assert(p0.shelves[p0.selected_row].wf());
            }
            self.shelves[self.selected_row].on_key_left();
            proof {
                let p2 = self@;
                assert(p2.shelves =~= page_left_spec(p0).shelves);
                assert(p2 == page_left_spec(p0));
                let moved = shelf_left_spec(p0.shelves[p0.selected_row]);
                assert forall|j: int| 0 <= j < p2.shelves.len()
                    implies (#[trigger] p2.shelves[j]).wf() && p2.shelves[j].tiles.len() > 0
                    && p2.shelves[j].padding == p2.tile_padding
                    && p2.shelves[j].height == p2.shelf_height
                    && (p2.shelves[j].selected <==> j == p2.selected_row)
                    && p2.shelves[j].rect.y == p2.expected_shelf_y(j) by {
                    assert(p0.shelves[j].wf());
                    if j == p0.selected_row {
                        assert(p2.shelves[j] == moved);
                    } else {
                        assert(p2.shelves[j] == p0.shelves[j]);
                    }
                }
                assert(p2.wf());
            }
        }
    }

    /// Records the measured label height of one shelf, as the renderer
    /// reports it, re-deriving that shelf's tile y positions.
    pub fn set_shelf_label_height(&mut self, i: usize, lh: u32)
        requires
            old(self)@.wf(),
            i < old(self)@.shelves.len(),
            lh <= crate::layout::MAX_LABEL_HEIGHT,
        ensures
            final(self)@ == (PageV {
                shelves: old(self)@.shelves.update(
                    i as int,
                    crate::shelf::shelf_set_label_height_spec(old(self)@.shelves[i as int], lh as int),
                ),
                ..old(self)@
            }),
            final(self)@.wf(),
    {
        let ghost p0 = old(self)@;
        proof {
            assert(self.shelves@[i as int]@ == p0.shelves[i as int]);
            assert(p0.shelves[i as int].wf());
        }
        self.shelves[i].set_label_height(lh);
        proof {
            let p2 = self@;
            let relabelled = crate::shelf::shelf_set_label_height_spec(
                p0.shelves[i as int],
                lh as int,
            );
            assert(p2.shelves =~= p0.shelves.update(i as int, relabelled));
            assert(p2 == (PageV { shelves: p0.shelves.update(i as int, relabelled), ..p0 }));
            assert forall|j: int| 0 <= j < p2.shelves.len()
                implies (#[trigger] p2.shelves[j]).wf() && p2.shelves[j].tiles.len() > 0
                && p2.shelves[j].padding == p2.tile_padding
                && p2.shelves[j].height == p2.shelf_height
                && (p2.shelves[j].selected <==> j == p2.selected_row)
                && p2.shelves[j].rect.y == p2.expected_shelf_y(j) by {
                assert(p0.shelves[j].wf());
                if j == i {
                    assert(p2.shelves[j] == relabelled);
                } else {
                    assert(p2.shelves[j] == p0.shelves[j]);
                }
            }
            assert(p2.wf());
        }
    }

    pub fn shelf_count(&self) -> (r: usize)
        ensures
            r == self@.shelves.len(),
    {
        self.shelves.len()
    }

    pub fn shelf(&self, i: usize) -> (r: &Shelf)
        requires
            i < self@.shelves.len(),
        ensures
            r@ == self@.shelves[i as int],
    {
        &self.shelves[i]
    }

    /// The index of the selected row; a valid index while the page has
    /// shelves.
    pub fn selected_row(&self) -> (r: usize)
        ensures
            r == self@.selected_row,
    {
        self.selected_row
    }
}

/// Scroll mirror: down then up restores the selected row and every
/// shelf's vertical offset exactly, from any row that can move down.
pub proof fn lemma_down_then_up_round_trip(p: PageV)
    requires
        p.wf(),
        p.shelves.len() > 0,
        p.selected_row < p.shelves.len() - 1,
    ensures
        ({
            let p2 = page_up_spec(page_down_spec(p));
            &&& p2.selected_row == p.selected_row
            &&& p2.shelves.len() == p.shelves.len()
            &&& forall|i: int| 0 <= i < p.shelves.len()
                ==> (#[trigger] p2.shelves[i]).rect.y == p.shelves[i].rect.y
            &&& p2.wf()
        }),
{
    lemma_page_down_wf(p);
    let p1 = page_down_spec(p);
    lemma_page_up_wf(p1);
    let p2 = page_up_spec(p1);
    assert(p1.selected_row == p.selected_row + 1);
    assert(p2.selected_row == p.selected_row);
    assert forall|i: int| 0 <= i < p.shelves.len()
        implies (#[trigger] p2.shelves[i]).rect.y == p.shelves[i].rect.y by {
        assert(p2.shelves[i].rect.y == p2.expected_shelf_y(i));
        assert(p.shelves[i].rect.y == p.expected_shelf_y(i));
    }
}

/// Right then left from any valid non-boundary selected tile restores
/// the whole page exactly, selected index and every tile position
/// included.
pub proof fn lemma_page_right_then_left_round_trip(p: PageV)
    requires
        p.wf(),
        p.shelves.len() > 0,
        p.shelves[p.selected_row].selected_tile < p.shelves[p.selected_row].tiles.len() - 1,
    ensures
        page_left_spec(page_right_spec(p)) == p,
{
    let s = p.selected_row;
    let sh = p.shelves[s];
    assert(sh.wf());
    assert(sh.selected);
    crate::shelf::lemma_right_then_left_round_trip(sh);
    let p1 = page_right_spec(p);
    let p2 = page_left_spec(p1);
    assert(p1.shelves[s] == shelf_right_spec(sh));
    assert(p2.shelves =~= p.shelves);
    assert(p2 == p);
}

/// Left then right from any valid non-boundary selected tile restores
/// the whole page exactly.
pub proof fn lemma_page_left_then_right_round_trip(p: PageV)
    requires
        p.wf(),
        p.shelves.len() > 0,
        p.shelves[p.selected_row].selected_tile > 0,
    ensures
        page_right_spec(page_left_spec(p)) == p,
{
    let s = p.selected_row;
    let sh = p.shelves[s];
    assert(sh.wf());
    assert(sh.selected);
    crate::shelf::lemma_left_then_right_round_trip(sh);
    let p1 = page_left_spec(p);
    let p2 = page_right_spec(p1);
    assert(p1.shelves[s] == shelf_left_spec(sh));
    assert(p2.shelves =~= p.shelves);
    assert(p2 == p);
}

/// Selection is unique: in any valid non-empty page, a tile is enlarged
/// exactly when it is the current tile of the selected row, so exactly
/// one tile across the whole tree is enlarged at any time.
pub proof fn lemma_exactly_one_tile_selected(p: PageV)
    requires
        p.wf(),
        p.shelves.len() > 0,
    ensures
        forall|i: int, k: int|
            0 <= i < p.shelves.len() && 0 <= k < p.shelves[i].tiles.len()
                ==> ((#[trigger] p.shelves[i].tiles[k]).selected <==> (i == p.selected_row
                    && k == p.shelves[i].selected_tile)),
{
    assert forall|i: int, k: int|
        0 <= i < p.shelves.len() && 0 <= k < p.shelves[i].tiles.len()
            implies ((#[trigger] p.shelves[i].tiles[k]).selected <==> (i == p.selected_row
                && k == p.shelves[i].selected_tile)) by {
        assert(p.shelves[i].wf());
        assert(p.shelves[i].selected <==> i == p.selected_row);
    }
}

/// A routing miss mutates nothing: a batch event whose title matches no
/// shelf leaves the whole page unchanged and reports the miss.
pub proof fn lemma_unmatched_event_is_noop(p: PageV, title: Seq<char>, url: Seq<char>, b: bytes::Bytes)
    requires
        forall|i: int| 0 <= i < p.shelves.len() ==> (#[trigger] p.shelves[i]).title != title,
    ensures
        page_apply_image_spec(p, title, url, b) == p,
        page_route_spec(p, title, url) == RouteOutcome::NoShelf,
{
    lemma_first_title_match_none(p.shelves, title);
}

} // verus!
