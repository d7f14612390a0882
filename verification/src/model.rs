//! Value types of the remote catalog.
//!
//! A catalog is an ordered list of content sets.  A content set is either
//! *inline* (its items are present) or a *reference* (items empty, a
//! `ref_id` present) until it is resolved.  Each item maps size labels to
//! image URLs; the first entry with a matching label wins.

use vstd::prelude::*;
use vstd::string::StringExecFns;

verus! {

/// A resolved reference document: a wrapper around the container that
/// holds one of the recognized embedded-set shapes.
pub struct SetRef {
    pub data: SetRefContainer,
}

/// The three recognized embedded-set shapes of a resolved reference
/// document, in priority order.
pub struct SetRefContainer {
    pub curated_set: Option<ContentSet>,
    pub trending_set: Option<ContentSet>,
    pub personalized_curated_set: Option<ContentSet>,
}

/// The root catalog document.
pub struct HomeRoot {
    pub data: HomeData,
}

/// The payload of the root document.
pub struct HomeData {
    pub standard_collection: HomeScreen,
}

/// The home screen: an ordered list of containers, one per content set.
pub struct HomeScreen {
    pub containers: Vec<Container>,
}

/// One entry of the home screen, wrapping a content set.
pub struct Container {
    pub content: ContentSet,
}

/// A titled, ordered collection of items.  `ref_id` is present exactly
/// when the set still has to be resolved by a second fetch.
pub struct ContentSet {
    pub text: ContentSetTitle,
    pub ref_id: Option<String>,
    pub items: Vec<ContentSetItem>,
}

/// One program or series within a content set.
pub struct ContentSetItem {
    pub image: ContentItemTileImage,
}

/// The tile images of an item, keyed by a size label such as an
/// aspect-ratio string.  Lookups take the first entry whose label matches.
pub struct ContentItemTileImage {
    pub tile: Vec<TileSizeEntry>,
}

/// One size label together with its image alternatives.
pub struct TileSizeEntry {
    pub size_label: String,
    pub image: TileImage,
}

/// The image alternatives registered for one size, in priority order:
/// series first, then program, then the fallback.
pub struct TileImage {
    pub series: Option<DefaultImage>,
    pub program: Option<DefaultImage>,
    pub fallback: Option<DefaultImage>,
}

/// The default alternative of an image slot.
pub struct DefaultImage {
    pub image: Image,
}

/// A remote image, by URL.
pub struct Image {
    pub url: String,
}

/// The title block of a content set.
pub struct ContentSetTitle {
    pub title: ContentSetTitleText,
}

/// The full-text variant of a title.
pub struct ContentSetTitleText {
    pub full: FullSetText,
}

/// The set-level text of a full title.
pub struct FullSetText {
    pub inner: DefaultText,
}

/// The default text variant.
pub struct DefaultText {
    pub text: TextContent,
}

/// A plain text content node.
pub struct TextContent {
    pub content: String,
}

impl SetRef {
    /// The content set this resolved reference carries, if any shape
    /// is present.
    pub fn content_set(self) -> (r: Option<ContentSet>)
        ensures
            r == self.data.spec_content_set(),
    {
        self.data.content_set()
    }
}

impl SetRefContainer {
    /// The first present shape, in the fixed priority order.
    pub open spec fn spec_content_set(self) -> Option<ContentSet> {
        if self.curated_set is Some {
            self.curated_set
        } else if self.trending_set is Some {
            self.trending_set
        } else {
            self.personalized_curated_set
        }
    }

    /// The first present shape, in the fixed priority order.
    pub fn content_set(self) -> (r: Option<ContentSet>)
        ensures
            r == self.spec_content_set(),
    {
        match self.curated_set {
            Some(c) => Some(c),
            None => match self.trending_set {
                Some(c) => Some(c),
                None => self.personalized_curated_set,
            },
        }
    }
}

impl HomeRoot {
    pub fn home_screen(self) -> (r: HomeScreen)
        ensures
            r == self.data.standard_collection,
    {
        self.data.standard_collection
    }
}

impl HomeScreen {
    /// The content sets of the screen, in catalog order.
    pub fn content_sets(self) -> (r: Vec<ContentSet>)
        ensures
            r@.len() == self.containers@.len(),
            forall|i: int| 0 <= i < r@.len() ==> r@[i] == self.containers@[i].content,
    {
        let mut containers = self.containers;
        let ghost orig: Seq<Container> = containers@;
        let mut out: Vec<ContentSet> = Vec::new();
        while containers.len() > 0
            invariant
                out@.len() + containers@.len() == orig.len(),
                containers@ == orig.skip(out@.len() as int),
                forall|i: int| 0 <= i < out@.len() ==> out@[i] == orig[i].content,
            decreases containers@.len(),
        {
            let c = containers.remove(0);
            assert(c == orig[out@.len() as int]);
            out.push(c.content);
            assert(containers@ == orig.skip(out@.len() as int));
        }
        out
    }
}

impl Container {
    pub fn content_set(self) -> (r: ContentSet)
        ensures
            r == self.content,
    {
        self.content
    }
}

impl ContentSet {
    /// The displayed title, as a sequence of characters.
    pub open spec fn spec_title(&self) -> Seq<char> {
        self.text.title.full.inner.text.content@
    }

    /// A copy of this set with the title replaced.  The items of the copy
    /// hold the same entries as the items of the original.
    pub fn set_title(&self, title: &String) -> (r: ContentSet)
        ensures
            r.spec_title() == title@,
            r.ref_id == self.ref_id,
            r.items@.len() == self.items@.len(),
            forall|i: int| 0 <= i < self.items@.len()
                ==> #[trigger] r.items@[i].image.tile@ == self.items@[i].image.tile@,
    {
        ContentSet {
            text: ContentSetTitle {
                title: ContentSetTitleText {
                    full: FullSetText {
                        inner: DefaultText { text: TextContent { content: title.clone() } },
                    },
                },
            },
            ref_id: clone_opt_string(&self.ref_id),
            items: copy_items(&self.items),
        }
    }

    pub fn title(&self) -> (r: &String)
        ensures
            r@ == self.spec_title(),
    {
        &self.text.title.full.inner.text.content
    }

    pub fn items(self) -> (r: Vec<ContentSetItem>)
        ensures
            r == self.items,
    {
        self.items
    }

    /// The items of the set, borrowed in order.
    pub fn items_iter(&self) -> (r: &Vec<ContentSetItem>)
        ensures
            r == &self.items,
    {
        &self.items
    }

    pub fn ref_id(&self) -> (r: Option<&String>)
        ensures
            match r {
                Some(id) => self.ref_id == Some(*id),
                None => self.ref_id is None,
            },
    {
        self.ref_id.as_ref()
    }
}

/// The image registered under `size` in `entries`: the first entry whose
/// label matches.
pub open spec fn entry_lookup(entries: Seq<TileSizeEntry>, size: Seq<char>) -> Option<TileImage>
    decreases entries.len(),
{
    if entries.len() == 0 {
        None
    } else if entries[0].size_label@ == size {
        Some(entries[0].image)
    } else {
        entry_lookup(entries.drop_first(), size)
    }
}

proof fn lemma_entry_lookup_at(entries: Seq<TileSizeEntry>, size: Seq<char>, i: int)
    requires
        0 <= i < entries.len(),
        forall|j: int| 0 <= j < i ==> #[trigger] entries[j].size_label@ != size,
        entries[i].size_label@ == size,
    ensures
        entry_lookup(entries, size) == Some(entries[i].image),
    decreases i,
{
    if i > 0 {
        lemma_entry_lookup_at(entries.drop_first(), size, i - 1);
    }
}

proof fn lemma_entry_lookup_none(entries: Seq<TileSizeEntry>, size: Seq<char>)
    requires
        forall|j: int| 0 <= j < entries.len() ==> #[trigger] entries[j].size_label@ != size,
    ensures
        entry_lookup(entries, size) is None,
    decreases entries.len(),
{
    if entries.len() > 0 {
        lemma_entry_lookup_none(entries.drop_first(), size);
    }
}

impl ContentSetItem {
    /// The URL registered for `size`, if the size has an entry and that
    /// entry has an image alternative.
    pub open spec fn spec_tile_image_url(&self, size: Seq<char>) -> Option<Seq<char>> {
        match entry_lookup(self.image.tile@, size) {
            None => None,
            Some(ti) => match ti.spec_default_image() {
                None => None,
                Some(di) => Some(di.image.url@),
            },
        }
    }

    pub fn tile_image_url(&self, size: &str) -> (r: Option<&String>)
        ensures
            match r {
                Some(u) => self.spec_tile_image_url(size@) == Some(u@),
                None => self.spec_tile_image_url(size@) is None,
            },
    {
        let key: String = String::from_str(size);
        let n = self.image.tile.len();
        let mut i: usize = 0;
        while i < n
            invariant
                n == self.image.tile@.len(),
                0 <= i <= n,
                key@ == size@,
                forall|j: int| 0 <= j < i ==> #[trigger] self.image.tile@[j].size_label@ != size@,
            decreases n - i,
        {
            if self.image.tile[i].size_label == key {
                proof {
                    lemma_entry_lookup_at(self.image.tile@, size@, i as int);
                }
                return match self.image.tile[i].image.default_image() {
                    Some(di) => Some(&di.image.url),
                    None => None,
                };
            }
            i = i + 1;
        }
        proof {
            lemma_entry_lookup_none(self.image.tile@, size@);
        }
        None
    }
}

impl TileImage {
    /// The first present alternative: series, then program, then fallback.
    pub open spec fn spec_default_image(&self) -> Option<DefaultImage> {
        if self.series is Some {
            self.series
        } else if self.program is Some {
            self.program
        } else {
            self.fallback
        }
    }

    pub fn default_image(&self) -> (r: Option<&DefaultImage>)
        ensures
            match r {
                Some(d) => self.spec_default_image() == Some(*d),
                None => self.spec_default_image() is None,
            },
    {
        match &self.series {
            Some(d) => Some(d),
            None => match &self.program {
                Some(d) => Some(d),
                None => self.fallback.as_ref(),
            },
        }
    }
}

fn clone_opt_string(o: &Option<String>) -> (r: Option<String>)
    ensures
        r == *o,
{
    match o {
        Some(s) => Some(s.clone()),
        None => None,
    }
}

fn copy_tile_image(t: &TileImage) -> (r: TileImage)
    ensures
        r == *t,
{
    TileImage {
        series: copy_opt_default_image(&t.series),
        program: copy_opt_default_image(&t.program),
        fallback: copy_opt_default_image(&t.fallback),
    }
}

fn copy_opt_default_image(o: &Option<DefaultImage>) -> (r: Option<DefaultImage>)
    ensures
        r == *o,
{
    match o {
        Some(d) => Some(DefaultImage { image: Image { url: d.image.url.clone() } }),
        None => None,
    }
}

fn copy_entries(v: &Vec<TileSizeEntry>) -> (r: Vec<TileSizeEntry>)
    ensures
        r@ == v@,
{
    let mut out: Vec<TileSizeEntry> = Vec::new();
    let n = v.len();
    let mut i: usize = 0;
    while i < n
        invariant
            n == v@.len(),
            0 <= i <= n,
            out@ == v@.take(i as int),
        decreases n - i,
    {
        let e = TileSizeEntry {
            size_label: v[i].size_label.clone(),
            image: copy_tile_image(&v[i].image),
        };
        assert(e == v@[i as int]);
        out.push(e);
        assert(out@ =~= v@.take(i + 1));
        i = i + 1;
    }
    assert(out@ =~= v@);
    out
}

fn copy_items(v: &Vec<ContentSetItem>) -> (r: Vec<ContentSetItem>)
    ensures
        r@.len() == v@.len(),
        forall|i: int| 0 <= i < v@.len()
            ==> #[trigger] r@[i].image.tile@ == v@[i].image.tile@,
{
    let mut out: Vec<ContentSetItem> = Vec::new();
    let n = v.len();
    let mut i: usize = 0;
    while i < n
        invariant
            n == v@.len(),
            0 <= i <= n,
            out@.len() == i,
            forall|j: int| 0 <= j < i
                ==> #[trigger] out@[j].image.tile@ == v@[j].image.tile@,
        decreases n - i,
    {
        out.push(ContentSetItem { image: ContentItemTileImage { tile: copy_entries(&v[i].image.tile) } });
        i = i + 1;
    }
    out
}

} // verus!
