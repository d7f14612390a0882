use bytes::Bytes;
use homeshelf::event::ImageLoadEvent;
use homeshelf::home_page::{HomePage, RouteOutcome};
use homeshelf::model::{
    ContentItemTileImage, ContentSet, ContentSetItem, ContentSetTitle, ContentSetTitleText,
    DefaultImage, DefaultText, FullSetText, Image, TextContent, TileImage, TileSizeEntry,
};
use homeshelf::pipeline::{collect_resolved, curate_tile_images, Batcher, CuratedItem};

fn title_of(text: &str) -> ContentSetTitle {
    ContentSetTitle {
        title: ContentSetTitleText {
            full: FullSetText {
                inner: DefaultText { text: TextContent { content: String::from(text) } },
            },
        },
    }
}

fn item_with_url(size: &str, url: &str) -> ContentSetItem {
    ContentSetItem {
        image: ContentItemTileImage {
            tile: vec![TileSizeEntry {
                size_label: String::from(size),
                image: TileImage {
                    series: None,
                    program: None,
                    fallback: Some(DefaultImage { image: Image { url: String::from(url) } }),
                },
            }],
        },
    }
}

fn inline_set(title: &str, urls: &[&str]) -> ContentSet {
    ContentSet {
        text: title_of(title),
        ref_id: None,
        items: urls.iter().map(|u| item_with_url("1.78", u)).collect(),
    }
}

fn event(title: &str, url: &str, payload: &[u8]) -> ImageLoadEvent {
    ImageLoadEvent {
        img_url: String::from(url),
        bytes: Bytes::from(payload.to_vec()),
        content_set_title: String::from(title),
    }
}

fn pairs(items: &[CuratedItem]) -> Vec<(String, String)> {
    items
        .iter()
        .map(|c| (c.content_set_title.clone(), c.img_url.clone()))
        .collect()
}

#[test]
fn curate_flattens_in_catalog_order() {
    let sets = vec![inline_set("A", &["u1", "u2"]), inline_set("B", &["u3"])];
    let curated = curate_tile_images(&sets, "1.78");
    assert_eq!(
        pairs(&curated),
        vec![
            (String::from("A"), String::from("u1")),
            (String::from("A"), String::from("u2")),
            (String::from("B"), String::from("u3")),
        ]
    );
}

#[test]
fn curate_drops_items_without_a_url_for_the_size() {
    let mut set = inline_set("A", &["u1"]);
    set.items.push(item_with_url("0.71", "portrait-only"));
    set.items.push(item_with_url("1.78", "u2"));
    let curated = curate_tile_images(&vec![set], "1.78");
    assert_eq!(
        pairs(&curated),
        vec![
            (String::from("A"), String::from("u1")),
            (String::from("A"), String::from("u2")),
        ]
    );
}

#[test]
fn curate_of_empty_catalog_is_empty() {
    let curated = curate_tile_images(&Vec::new(), "1.78");
    assert!(curated.is_empty());
}

#[test]
fn batcher_emits_full_batches_then_the_partial_rest() {
    let mut batcher = Batcher::new(2);
    assert!(batcher.push(event("A", "u1", b"1")).is_none());
    let first = batcher.push(event("A", "u2", b"2")).expect("a full batch");
    assert_eq!(first.events.len(), 2);
    assert_eq!(first.events[0].img_url, "u1");
    assert_eq!(first.events[1].img_url, "u2");
    assert!(batcher.push(event("B", "u3", b"3")).is_none());
    let rest = batcher.flush().expect("the final partial batch");
    assert_eq!(rest.events.len(), 1);
    assert_eq!(rest.events[0].img_url, "u3");
    assert!(batcher.flush().is_none());
}

#[test]
fn batcher_flush_with_nothing_pending_emits_nothing() {
    let mut batcher = Batcher::new(3);
    assert!(batcher.flush().is_none());
}

#[test]
fn collect_resolved_keeps_order_and_drops_failures() {
    let outcomes = vec![
        Some(inline_set("A", &["u1"])),
        None,
        Some(inline_set("C", &["u2"])),
        None,
    ];
    let resolved = collect_resolved(outcomes);
    let titles: Vec<&String> = resolved.iter().map(|s| s.title()).collect();
    assert_eq!(titles, vec!["A", "C"]);
}

#[test]
fn collect_resolved_of_all_failures_is_empty() {
    let resolved = collect_resolved(vec![None, None]);
    assert!(resolved.is_empty());
}

/// End to end: a catalog of two inline sets is curated, every fetch but
/// one succeeds, the successes are batched two at a time, and the
/// batches land on exactly the fetched tiles.
#[test]
fn pipeline_delivers_exactly_the_successful_fetches() {
    let sets = vec![inline_set("A", &["u1", "u2"]), inline_set("B", &["u3"])];
    let page_sets = vec![inline_set("A", &["u1", "u2"]), inline_set("B", &["u3"])];
    let mut page = HomePage::load(page_sets, 50, 180, 20);

    let curated = curate_tile_images(&sets, "1.78");
    assert_eq!(curated.len(), 3);

    // The fetch stage: u2 comes back with a non-success status and is
    // dropped; the other two fetches succeed.
    let mut batcher = Batcher::new(2);
    let mut batches = Vec::new();
    for item in &curated {
        if item.img_url == "u2" {
            continue;
        }
        let ev = event(&item.content_set_title, &item.img_url, item.img_url.as_bytes());
        if let Some(batch) = batcher.push(ev) {
            batches.push(batch);
        }
    }
    if let Some(batch) = batcher.flush() {
        batches.push(batch);
    }

    // Two successes, batch size two: exactly one full batch.
    assert_eq!(batches.len(), 1);
    let total: usize = batches.iter().map(|b| b.events.len()).sum();
    assert_eq!(total, 2);

    for batch in batches {
        page.on_image_batch(batch);
    }
    assert_eq!(page.shelf(0).tile(0).image(), &Some(Bytes::from(&b"u1"[..])));
    assert_eq!(page.shelf(0).tile(1).image(), &None);
    assert_eq!(page.shelf(1).tile(0).image(), &Some(Bytes::from(&b"u3"[..])));
}

#[test]
fn a_batch_is_applied_event_by_event() {
    let mut page = HomePage::load(vec![inline_set("A", &["u1", "u2"])], 50, 180, 20);
    let batch = Batcher::new(10);
    let mut batcher = batch;
    assert!(batcher.push(event("A", "u1", b"one")).is_none());
    assert!(batcher.push(event("A", "u2", b"two")).is_none());
    assert!(batcher.push(event("Nobody", "u9", b"miss")).is_none());
    let delivered = batcher.flush().expect("partial batch");
    page.on_image_batch(delivered);
    assert_eq!(page.shelf(0).tile(0).image(), &Some(Bytes::from(&b"one"[..])));
    assert_eq!(page.shelf(0).tile(1).image(), &Some(Bytes::from(&b"two"[..])));
}

#[test]
fn route_outcomes_cover_the_miss_cases() {
    let mut page = HomePage::load(vec![inline_set("A", &["u1"])], 50, 180, 20);
    assert_eq!(
        page.on_image_load(event("A", "u1", b"x")),
        RouteOutcome::Applied
    );
    assert_eq!(
        page.on_image_load(event("B", "u1", b"x")),
        RouteOutcome::NoShelf
    );
    assert_eq!(
        page.on_image_load(event("A", "zz", b"x")),
        RouteOutcome::NoTile
    );
}
