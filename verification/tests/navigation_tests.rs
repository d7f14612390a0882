use bytes::Bytes;
use homeshelf::event::ImageLoadEvent;
use homeshelf::home_page::{HomePage, RouteOutcome};
use homeshelf::model::{
    ContentItemTileImage, ContentSet, ContentSetItem, ContentSetTitle, ContentSetTitleText,
    DefaultImage, DefaultText, FullSetText, Image, TextContent, TileImage, TileSizeEntry,
};
use homeshelf::shelf::Shelf;
use homeshelf::tile::ShelfTile;

fn title_of(text: &str) -> ContentSetTitle {
    ContentSetTitle {
        title: ContentSetTitleText {
            full: FullSetText {
                inner: DefaultText { text: TextContent { content: String::from(text) } },
            },
        },
    }
}

fn item_with_url(url: &str) -> ContentSetItem {
    ContentSetItem {
        image: ContentItemTileImage {
            tile: vec![TileSizeEntry {
                size_label: String::from("1.78"),
                image: TileImage {
                    series: None,
                    program: None,
                    fallback: Some(DefaultImage { image: Image { url: String::from(url) } }),
                },
            }],
        },
    }
}

fn inline_set(title: &str, urls: &[&str]) -> ContentSet {
    ContentSet {
        text: title_of(title),
        ref_id: None,
        items: urls.iter().map(|u| item_with_url(u)).collect(),
    }
}

/// The page of the examples below: shelf padding 50, shelf height 180,
/// tile padding 20, so tiles are 160 high and 284 = 160 * 178 / 100 wide.
fn example_page() -> HomePage {
    HomePage::load(
        vec![
            inline_set("Trending Now", &["u1", "u2", "u3"]),
            inline_set("New to Stream", &["u4", "u5"]),
            inline_set("Classics", &["u6"]),
            inline_set("Originals", &["u7", "u8"]),
        ],
        50,
        180,
        20,
    )
}

fn shelf_ys(page: &HomePage) -> Vec<i32> {
    (0..page.shelf_count()).map(|i| page.shelf(i).y()).collect()
}

fn tile_xs(shelf: &Shelf) -> Vec<i32> {
    (0..shelf.tile_count()).map(|i| shelf.tile(i).x()).collect()
}

#[test]
fn load_creates_one_shelf_per_set_in_catalog_order() {
    let page = example_page();
    assert_eq!(page.shelf_count(), 4);
    assert_eq!(page.shelf(0).title(), "Trending Now");
    assert_eq!(page.shelf(1).title(), "New to Stream");
    assert_eq!(page.shelf(2).title(), "Classics");
    assert_eq!(page.shelf(3).title(), "Originals");
    assert_eq!(page.shelf(0).tile_count(), 3);
    assert_eq!(page.shelf(3).tile_count(), 2);
}

#[test]
fn load_stacks_shelves_with_padding_and_selects_first_row() {
    let page = example_page();
    assert_eq!(shelf_ys(&page), vec![50, 280, 510, 740]);
    assert_eq!(page.selected_row(), 0);
    assert!(page.shelf(0).selected());
    assert!(!page.shelf(1).selected());
    assert_eq!(page.shelf(0).selected_tile_index(), 0);
    assert!(page.shelf(0).tile(0).selected());
    assert!(!page.shelf(0).tile(1).selected());
}

#[test]
fn selected_tile_is_enlarged_by_fixed_deltas() {
    let page = example_page();
    // Unselected tiles: 284 x 160 at (x, shelf y + 20).
    let plain = page.shelf(0).tile(1);
    assert_eq!(plain.width(), 284);
    assert_eq!(plain.height(), 160);
    assert_eq!(plain.x(), 324);
    assert_eq!(plain.y(), 70);
    // The selected tile: +36 / +20 extent, corner moved by -18 / -10.
    let selected = page.shelf(0).tile(0);
    assert_eq!(selected.width(), 320);
    assert_eq!(selected.height(), 180);
    assert_eq!(selected.x(), 2);
    assert_eq!(selected.y(), 60);
}

#[test]
fn tile_select_unselect_round_trips_rectangle() {
    let item = item_with_url("u");
    let mut tile = ShelfTile::load(&item, 100, 200, 160);
    assert_eq!((tile.x(), tile.y(), tile.width(), tile.height()), (100, 200, 284, 160));
    tile.select();
    assert_eq!((tile.x(), tile.y(), tile.width(), tile.height()), (82, 190, 320, 180));
    tile.select();
    assert_eq!((tile.x(), tile.y(), tile.width(), tile.height()), (82, 190, 320, 180));
    tile.unselect();
    assert_eq!((tile.x(), tile.y(), tile.width(), tile.height()), (100, 200, 284, 160));
    tile.unselect();
    assert_eq!((tile.x(), tile.y(), tile.width(), tile.height()), (100, 200, 284, 160));
}

#[test]
fn first_key_right_pans_by_half_a_tile() {
    let mut page = example_page();
    page.on_key_right();
    let shelf = page.shelf(0);
    assert_eq!(shelf.selected_tile_index(), 1);
    // Shift is 284 / 2 + 20 = 162; the new selected tile sits 18 further left.
    assert_eq!(tile_xs(shelf), vec![-142, 144, 466]);
    assert!(shelf.tile(1).selected());
    assert!(!shelf.tile(0).selected());
}

#[test]
fn second_key_right_pans_by_a_full_tile() {
    let mut page = example_page();
    page.on_key_right();
    page.on_key_right();
    let shelf = page.shelf(0);
    assert_eq!(shelf.selected_tile_index(), 2);
    assert_eq!(tile_xs(shelf), vec![-162, -142, 144]);
}

#[test]
fn right_then_left_restores_index_and_positions() {
    let mut page = example_page();
    page.on_key_right();
    let before = tile_xs(page.shelf(0));
    let index_before = page.shelf(0).selected_tile_index();
    page.on_key_right();
    page.on_key_left();
    assert_eq!(page.shelf(0).selected_tile_index(), index_before);
    assert_eq!(tile_xs(page.shelf(0)), before);
}

#[test]
fn left_then_right_restores_index_and_positions() {
    let mut page = example_page();
    page.on_key_right();
    let before = tile_xs(page.shelf(0));
    page.on_key_left();
    page.on_key_right();
    assert_eq!(page.shelf(0).selected_tile_index(), 1);
    assert_eq!(tile_xs(page.shelf(0)), before);
}

#[test]
fn key_right_at_last_tile_changes_nothing() {
    let mut page = example_page();
    page.on_key_right();
    page.on_key_right();
    let before = tile_xs(page.shelf(0));
    page.on_key_right();
    assert_eq!(page.shelf(0).selected_tile_index(), 2);
    assert_eq!(tile_xs(page.shelf(0)), before);
}

#[test]
fn key_left_at_first_tile_changes_nothing() {
    let mut page = example_page();
    let before = tile_xs(page.shelf(0));
    page.on_key_left();
    assert_eq!(page.shelf(0).selected_tile_index(), 0);
    assert_eq!(tile_xs(page.shelf(0)), before);
}

#[test]
fn key_down_scrolls_only_past_the_second_row() {
    let mut page = example_page();
    page.on_key_down();
    assert_eq!(page.selected_row(), 1);
    assert_eq!(shelf_ys(&page), vec![50, 280, 510, 740]);
    page.on_key_down();
    assert_eq!(page.selected_row(), 2);
    // One scroll step is 180 + 50 = 230.
    assert_eq!(shelf_ys(&page), vec![-180, 50, 280, 510]);
    page.on_key_down();
    assert_eq!(page.selected_row(), 3);
    assert_eq!(shelf_ys(&page), vec![-410, -180, 50, 280]);
}

#[test]
fn key_down_at_last_row_changes_nothing() {
    let mut page = example_page();
    page.on_key_down();
    page.on_key_down();
    page.on_key_down();
    let before = shelf_ys(&page);
    page.on_key_down();
    assert_eq!(page.selected_row(), 3);
    assert_eq!(shelf_ys(&page), before);
}

#[test]
fn key_up_at_first_row_changes_nothing() {
    let mut page = example_page();
    let before = shelf_ys(&page);
    page.on_key_up();
    assert_eq!(page.selected_row(), 0);
    assert_eq!(shelf_ys(&page), before);
}

#[test]
fn down_then_up_mirrors_scroll_offsets() {
    let mut page = example_page();
    page.on_key_down();
    page.on_key_down();
    assert_eq!(page.selected_row(), 2);
    let before = shelf_ys(&page);
    page.on_key_down();
    page.on_key_up();
    assert_eq!(page.selected_row(), 2);
    assert_eq!(shelf_ys(&page), before);
}

#[test]
fn selection_moves_between_rows() {
    let mut page = example_page();
    page.on_key_down();
    assert!(!page.shelf(0).selected());
    assert!(page.shelf(1).selected());
    assert!(page.shelf(1).tile(0).selected());
    assert!(!page.shelf(0).tile(0).selected());
    page.on_key_up();
    assert!(page.shelf(0).selected());
    assert!(!page.shelf(1).selected());
}

#[test]
fn empty_catalog_loads_and_ignores_keys() {
    let mut page = HomePage::load(Vec::new(), 50, 180, 20);
    assert_eq!(page.shelf_count(), 0);
    assert_eq!(page.selected_row(), 0);
    page.on_key_down();
    page.on_key_up();
    page.on_key_right();
    page.on_key_left();
    assert_eq!(page.shelf_count(), 0);
    assert_eq!(page.selected_row(), 0);
}

#[test]
fn image_event_reaches_exactly_the_matching_tile() {
    let mut page = example_page();
    let payload = Bytes::from(vec![1u8, 2, 3]);
    let outcome = page.on_image_load(ImageLoadEvent {
        img_url: String::from("u2"),
        bytes: payload.clone(),
        content_set_title: String::from("Trending Now"),
    });
    assert_eq!(outcome, RouteOutcome::Applied);
    assert_eq!(page.shelf(0).tile(1).image(), &Some(payload));
    assert_eq!(page.shelf(0).tile(0).image(), &None);
    assert_eq!(page.shelf(0).tile(2).image(), &None);
    assert_eq!(page.shelf(1).tile(0).image(), &None);
}

#[test]
fn image_event_with_unknown_title_changes_nothing() {
    let mut page = example_page();
    let ys = shelf_ys(&page);
    let xs = tile_xs(page.shelf(0));
    let outcome = page.on_image_load(ImageLoadEvent {
        img_url: String::from("u1"),
        bytes: Bytes::from(vec![9u8]),
        content_set_title: String::from("No Such Shelf"),
    });
    assert_eq!(outcome, RouteOutcome::NoShelf);
    assert_eq!(shelf_ys(&page), ys);
    assert_eq!(tile_xs(page.shelf(0)), xs);
    for s in 0..page.shelf_count() {
        for t in 0..page.shelf(s).tile_count() {
            assert_eq!(page.shelf(s).tile(t).image(), &None);
        }
    }
}

#[test]
fn image_event_with_unknown_url_changes_nothing() {
    let mut page = example_page();
    let outcome = page.on_image_load(ImageLoadEvent {
        img_url: String::from("unknown"),
        bytes: Bytes::from(vec![9u8]),
        content_set_title: String::from("Classics"),
    });
    assert_eq!(outcome, RouteOutcome::NoTile);
    assert_eq!(page.shelf(2).tile(0).image(), &None);
}

#[test]
fn label_height_moves_tiles_below_the_label() {
    // Tiles start at shelf y + tile padding; once a label height is
    // known they sit at shelf y + label height + 10.
    let mut shelf = Shelf::load(inline_set("Solo", &["u1", "u2"]), 180, 20, 280);
    assert_eq!(shelf.tile(0).y(), 300);
    shelf.set_label_height(30);
    assert_eq!(shelf.tile(0).y(), 320);
    assert_eq!(shelf.tile(1).y(), 320);
    // Moving the shelf keeps tiles at the derived offset.
    shelf.set_y(50);
    assert_eq!(shelf.tile(0).y(), 90);
}

#[test]
fn visibility_follows_the_viewport() {
    let page = example_page();
    let shelf = page.shelf(0);
    assert!(shelf.in_vertical_view(0, 1080));
    assert!(!shelf.in_vertical_view(1000, 1080));
    let tile = shelf.tile(2);
    assert!(tile.in_horizontal_view(1920));
    assert!(!tile.in_horizontal_view(400));
}
