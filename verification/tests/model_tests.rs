use homeshelf::model::{
    Container, ContentItemTileImage, ContentSet, ContentSetItem, ContentSetTitle,
    ContentSetTitleText, DefaultImage, DefaultText, FullSetText, HomeData, HomeRoot, HomeScreen,
    Image, SetRef, SetRefContainer, TextContent, TileImage, TileSizeEntry,
};

fn title_of(text: &str) -> ContentSetTitle {
    ContentSetTitle {
        title: ContentSetTitleText {
            full: FullSetText {
                inner: DefaultText { text: TextContent { content: String::from(text) } },
            },
        },
    }
}

fn image_only(url: &str) -> TileImage {
    TileImage {
        series: None,
        program: None,
        fallback: Some(DefaultImage { image: Image { url: String::from(url) } }),
    }
}

fn item_with_url(size: &str, url: &str) -> ContentSetItem {
    ContentSetItem {
        image: ContentItemTileImage {
            tile: vec![TileSizeEntry { size_label: String::from(size), image: image_only(url) }],
        },
    }
}

fn inline_set(title: &str, urls: &[&str]) -> ContentSet {
    ContentSet {
        text: title_of(title),
        ref_id: None,
        items: urls.iter().map(|u| item_with_url("1.78", u)).collect(),
    }
}

#[test]
fn tile_image_url_returns_registered_size() {
    let item = item_with_url("1.78", "https://cdn.example/a.jpg");
    assert_eq!(
        item.tile_image_url("1.78"),
        Some(&String::from("https://cdn.example/a.jpg"))
    );
}

#[test]
fn tile_image_url_missing_size_is_none() {
    let item = item_with_url("1.78", "https://cdn.example/a.jpg");
    assert_eq!(item.tile_image_url("0.71"), None);
}

#[test]
fn tile_image_url_takes_first_matching_entry() {
    let item = ContentSetItem {
        image: ContentItemTileImage {
            tile: vec![
                TileSizeEntry { size_label: String::from("1.78"), image: image_only("first") },
                TileSizeEntry { size_label: String::from("1.78"), image: image_only("second") },
            ],
        },
    };
    assert_eq!(item.tile_image_url("1.78"), Some(&String::from("first")));
}

#[test]
fn default_image_prefers_series_then_program_then_fallback() {
    let series = TileImage {
        series: Some(DefaultImage { image: Image { url: String::from("s") } }),
        program: Some(DefaultImage { image: Image { url: String::from("p") } }),
        fallback: Some(DefaultImage { image: Image { url: String::from("f") } }),
    };
    assert_eq!(series.default_image().unwrap().image.url, "s");

    let program = TileImage {
        series: None,
        program: Some(DefaultImage { image: Image { url: String::from("p") } }),
        fallback: Some(DefaultImage { image: Image { url: String::from("f") } }),
    };
    assert_eq!(program.default_image().unwrap().image.url, "p");

    let fallback = image_only("f");
    assert_eq!(fallback.default_image().unwrap().image.url, "f");

    let none = TileImage { series: None, program: None, fallback: None };
    assert!(none.default_image().is_none());
}

#[test]
fn content_set_title_and_ref_id() {
    let set = inline_set("New Releases", &["u1"]);
    assert_eq!(set.title(), &String::from("New Releases"));
    assert!(set.ref_id().is_none());

    let reference = ContentSet {
        text: title_of("Pending"),
        ref_id: Some(String::from("abc123")),
        items: Vec::new(),
    };
    assert_eq!(reference.ref_id(), Some(&String::from("abc123")));
}

#[test]
fn set_title_replaces_title_and_keeps_items() {
    let set = inline_set("Old", &["u1", "u2"]);
    let renamed = set.set_title(&String::from("New"));
    assert_eq!(renamed.title(), &String::from("New"));
    assert_eq!(set.title(), &String::from("Old"));
    assert_eq!(renamed.items_iter().len(), 2);
    assert_eq!(
        renamed.items_iter()[1].tile_image_url("1.78"),
        Some(&String::from("u2"))
    );
}

#[test]
fn home_screen_content_sets_keep_container_order() {
    let screen = HomeScreen {
        containers: vec![
            Container { content: inline_set("A", &["u1"]) },
            Container { content: inline_set("B", &["u2"]) },
            Container { content: inline_set("C", &["u3"]) },
        ],
    };
    let sets = screen.content_sets();
    let titles: Vec<&String> = sets.iter().map(|s| s.title()).collect();
    assert_eq!(titles, vec!["A", "B", "C"]);
}

#[test]
fn home_root_unwraps_to_screen() {
    let root = HomeRoot {
        data: HomeData {
            standard_collection: HomeScreen {
                containers: vec![Container { content: inline_set("A", &["u1"]) }],
            },
        },
    };
    assert_eq!(root.home_screen().content_sets().len(), 1);
}

#[test]
fn set_ref_takes_first_present_shape() {
    let curated = SetRef {
        data: SetRefContainer {
            curated_set: Some(inline_set("Curated", &["u1"])),
            trending_set: Some(inline_set("Trending", &["u2"])),
            personalized_curated_set: None,
        },
    };
    assert_eq!(curated.content_set().unwrap().title(), "Curated");

    let trending = SetRef {
        data: SetRefContainer {
            curated_set: None,
            trending_set: Some(inline_set("Trending", &["u2"])),
            personalized_curated_set: Some(inline_set("Personal", &["u3"])),
        },
    };
    assert_eq!(trending.content_set().unwrap().title(), "Trending");

    let personal = SetRef {
        data: SetRefContainer {
            curated_set: None,
            trending_set: None,
            personalized_curated_set: Some(inline_set("Personal", &["u3"])),
        },
    };
    assert_eq!(personal.content_set().unwrap().title(), "Personal");

    let empty = SetRef {
        data: SetRefContainer {
            curated_set: None,
            trending_set: None,
            personalized_curated_set: None,
        },
    };
    assert!(empty.content_set().is_none());
}
