//! Decision logic of the content pipeline.
//!
//! The pipeline flattens the resolved catalog into `(title, URL)` pairs,
//! dropping items without a URL for the requested size; fetches run
//! outside the library, and each successful fetch comes back as an
//! [`ImageLoadEvent`].  A [`Batcher`] groups those events into delivery
//! batches of a configured size.  [`collect_resolved`] keeps the
//! catalog's order while dropping sets whose resolution failed.

use vstd::prelude::*;

use crate::event::{ImageLoadBatchEvent, ImageLoadEvent};
use crate::model::ContentSet;

verus! {

/// One fetchable tile: the owning content set's title and the image
/// URL registered for the requested size.
pub struct CuratedItem {
    pub content_set_title: String,
    pub img_url: String,
}

/// The `(title, URL)` pairs of the first `n` items of one set, in item
/// order, keeping only items with a URL for `size`.
pub open spec fn items_curated_prefix(
    title: Seq<char>,
    items: Seq<crate::model::ContentSetItem>,
    size: Seq<char>,
    n: int,
) -> Seq<(Seq<char>, Seq<char>)>
    decreases n,
{
    if n <= 0 {
        Seq::empty()
    } else {
        items_curated_prefix(title, items, size, n - 1) + (match items[n - 1].spec_tile_image_url(
            size,
        ) {
            Some(u) => seq![(title, u)],
            None => Seq::empty(),
        })
    }
}

/// The `(title, URL)` pairs of the first `n` sets of the catalog, in
/// catalog order then item order.
pub open spec fn curated_prefix(sets: Seq<ContentSet>, size: Seq<char>, n: int) -> Seq<
    (Seq<char>, Seq<char>),
>
    decreases n,
{
    if n <= 0 {
        Seq::empty()
    } else {
        curated_prefix(sets, size, n - 1) + items_curated_prefix(
            sets[n - 1].spec_title(),
            sets[n - 1].items@,
            size,
            sets[n - 1].items@.len() as int,
        )
    }
}

/// All `(title, URL)` pairs of the catalog for `size`: what enters the
/// fetch stage, in catalog order.
pub open spec fn curated_spec(sets: Seq<ContentSet>, size: Seq<char>) -> Seq<
    (Seq<char>, Seq<char>),
> {
    curated_prefix(sets, size, sets.len() as int)
}

/// Whether the curated items `v` carry exactly the pairs `s`.
pub open spec fn curated_matches(v: Seq<CuratedItem>, s: Seq<(Seq<char>, Seq<char>)>) -> bool {
    &&& v.len() == s.len()
    &&& forall|k: int| 0 <= k < v.len()
        ==> (#[trigger] v[k]).content_set_title@ == s[k].0 && v[k].img_url@ == s[k].1
}

/// Flattens `(set title, item)` pairs across the whole catalog, in
/// catalog order, keeping exactly the items that have an image URL for
/// the requested size; image-less items never enter the fetch stage.
pub fn curate_tile_images(content_sets: &Vec<ContentSet>, image_size: &str) -> (r: Vec<CuratedItem>)
    ensures
        curated_matches(r@, curated_spec(content_sets@, image_size@)),
{
    let mut out: Vec<CuratedItem> = Vec::new();
    let n = content_sets.len();
    let mut i: usize = 0;
    while i < n
        invariant
            n == content_sets@.len(),
            0 <= i <= n,
            curated_matches(out@, curated_prefix(content_sets@, image_size@, i as int)),
        decreases n - i,
    {
        let title = content_sets[i].title().clone();
        let m = content_sets[i].items_iter().len();
        let mut j: usize = 0;
        while j < m
            invariant
                n == content_sets@.len(),
                0 <= i < n,
                m == content_sets@[i as int].items@.len(),
                0 <= j <= m,
                title@ == content_sets@[i as int].spec_title(),
                curated_matches(
                    out@,
                    curated_prefix(content_sets@, image_size@, i as int)
                        + items_curated_prefix(
                        content_sets@[i as int].spec_title(),
                        content_sets@[i as int].items@,
                        image_size@,
                        j as int,
                    ),
                ),
            decreases m - j,
        {
            match content_sets[i].items_iter()[j].tile_image_url(image_size) {
                Some(u) => {
                    out.push(CuratedItem { content_set_title: title.clone(), img_url: u.clone() });
                },
                None => {},
            }
            j = j + 1;
        }
        i = i + 1;
    }
    out
}

/// Mathematical value of a [`Batcher`].
pub struct BatcherV {
    pub batch_size: int,
    pub pending: Seq<ImageLoadEvent>,
}

impl BatcherV {
    /// Validity: the configured size is positive and the pending buffer
    /// is never full.
    pub open spec fn wf(self) -> bool {
        &&& 1 <= self.batch_size
        &&& self.pending.len() < self.batch_size
    }
}

/// What `push` does: the event joins the pending buffer, and a full
/// buffer is emitted as one batch.
pub open spec fn batcher_push_spec(b: BatcherV, ev: ImageLoadEvent) -> (BatcherV, Option<
    Seq<ImageLoadEvent>,
>) {
    let q = b.pending.push(ev);
    if q.len() == b.batch_size {
        (BatcherV { pending: Seq::empty(), ..b }, Some(q))
    } else {
        (BatcherV { pending: q, ..b }, None)
    }
}

/// What `flush` does: a non-empty pending buffer is emitted as the
/// final, possibly partial batch.
pub open spec fn batcher_flush_spec(b: BatcherV) -> (BatcherV, Option<Seq<ImageLoadEvent>>) {
    if b.pending.len() == 0 {
        (b, None)
    } else {
        (BatcherV { pending: Seq::empty(), ..b }, Some(b.pending))
    }
}

/// Groups successfully fetched images into batches of up to a
/// configured size, in arrival order.
pub struct Batcher {
    batch_size: usize,
    pending: Vec<ImageLoadEvent>,
}

impl View for Batcher {
    type V = BatcherV;

    closed spec fn view(&self) -> BatcherV {
        BatcherV { batch_size: self.batch_size as int, pending: self.pending@ }
    }
}

impl Batcher {
    pub fn new(batch_size: usize) -> (r: Batcher)
        requires
            batch_size >= 1,
        ensures
            r@ == (BatcherV { batch_size: batch_size as int, pending: Seq::empty() }),
            r@.wf(),
    {
        Batcher { batch_size, pending: Vec::new() }
    }

    /// Accepts one fetched image.  When the pending buffer reaches the
    /// configured size it is returned as a batch; otherwise nothing is
    /// emitted yet.
    pub fn push(&mut self, event: ImageLoadEvent) -> (r: Option<ImageLoadBatchEvent>)
        requires
            old(self)@.wf(),
        ensures
            final(self)@.wf(),
            final(self)@ == batcher_push_spec(old(self)@, event).0,
            match r {
                Some(batch) => batcher_push_spec(old(self)@, event).1 == Some(batch.events@),
                None => batcher_push_spec(old(self)@, event).1 is None,
            },
    {
        self.pending.push(event);
        if self.pending.len() == self.batch_size {
            let mut events: Vec<ImageLoadEvent> = Vec::new();
            core::mem::swap(&mut events, &mut self.pending);
            Some(ImageLoadBatchEvent { events })
        } else {
            None
        }
    }

    /// Emits whatever is pending as the final partial batch; nothing is
    /// emitted when nothing is pending.
    pub fn flush(&mut self) -> (r: Option<ImageLoadBatchEvent>)
        requires
            old(self)@.wf(),
        ensures
            final(self)@.wf(),
            final(self)@ == batcher_flush_spec(old(self)@).0,
            match r {
                Some(batch) => batcher_flush_spec(old(self)@).1 == Some(batch.events@),
                None => batcher_flush_spec(old(self)@).1 is None,
            },
    {
        if self.pending.len() == 0 {
            None
        } else {
            let mut events: Vec<ImageLoadEvent> = Vec::new();
            core::mem::swap(&mut events, &mut self.pending);
            Some(ImageLoadBatchEvent { events })
        }
    }
}

/// The batcher's state and emitted batches after pushing a whole
/// sequence of events, in order.
pub open spec fn batcher_run_spec(b: BatcherV, events: Seq<ImageLoadEvent>) -> (BatcherV, Seq<
    Seq<ImageLoadEvent>,
>)
    decreases events.len(),
{
    if events.len() == 0 {
        (b, Seq::empty())
    } else {
        let (b1, out) = batcher_push_spec(b, events[0]);
        let (bf, rest) = batcher_run_spec(b1, events.drop_first());
        match out {
            Some(batch) => (bf, seq![batch] + rest),
            None => (bf, rest),
        }
    }
}

/// Batching loses and reorders nothing: after pushing any sequence of
/// events, the emitted batches followed by the still-pending rest hold
/// exactly the old pending events and the pushed ones, in order, and
/// every emitted batch is exactly full.  The final partial batch is
/// what `flush` then emits.
pub proof fn lemma_batcher_run_covers(b: BatcherV, events: Seq<ImageLoadEvent>)
    requires
        b.wf(),
    ensures
        ({
            let (bf, batches) = batcher_run_spec(b, events);
            &&& bf.wf()
            &&& bf.batch_size == b.batch_size
            &&& batches.flatten() + bf.pending == b.pending + events
            &&& forall|k: int| 0 <= k < batches.len()
                ==> (#[trigger] batches[k]).len() == b.batch_size
        }),
    decreases events.len(),
{
    let (bf, batches) = batcher_run_spec(b, events);
    if events.len() == 0 {
        assert(batches.flatten() =~= Seq::<ImageLoadEvent>::empty());
        assert(batches.flatten() + bf.pending =~= b.pending + events);
    } else {
        let (b1, out) = batcher_push_spec(b, events[0]);
        let rest_events = events.drop_first();
        lemma_batcher_run_covers(b1, rest_events);
        let (bf2, rest) = batcher_run_spec(b1, rest_events);
        match out {
            Some(batch) => {
                assert(batches =~= seq![batch] + rest);
                assert(batches.len() > 0);
                assert(batches[0] == batch);
                assert(batches.drop_first() =~= rest);
                assert(batches.flatten() == batches[0] + batches.drop_first().flatten());
                assert(b1.pending =~= Seq::<ImageLoadEvent>::empty());
                assert(batch =~= b.pending.push(events[0]));
                assert(batch + (rest.flatten() + bf.pending) =~= b.pending + events);
                assert(batches.flatten() + bf.pending =~= b.pending + events);
            },
            None => {
                assert(batches =~= rest);
                assert(b1.pending =~= b.pending.push(events[0]));
                assert(batches.flatten() + bf.pending =~= b.pending + events);
            },
        }
    }
}

/// The resolved sets among the first `n` outcomes, in catalog order.
pub open spec fn resolved_prefix(outcomes: Seq<Option<ContentSet>>, n: int) -> Seq<ContentSet>
    decreases n,
{
    if n <= 0 {
        Seq::empty()
    } else {
        resolved_prefix(outcomes, n - 1) + (match outcomes[n - 1] {
            Some(cs) => seq![cs],
            None => Seq::empty(),
        })
    }
}

/// The resolved sets among all outcomes, in catalog order.
pub open spec fn resolved_spec(outcomes: Seq<Option<ContentSet>>) -> Seq<ContentSet> {
    resolved_prefix(outcomes, outcomes.len() as int)
}

/// Keeps the catalog's order while dropping failed resolutions: the
/// result holds exactly the resolved sets, in the order their
/// containers had in the root document.  Concurrency of the resolution
/// fetches can thus never change the final order.
pub fn collect_resolved(outcomes: Vec<Option<ContentSet>>) -> (r: Vec<ContentSet>)
    ensures
        r@ == resolved_spec(outcomes@),
{
    let mut rest = outcomes;
    let ghost orig: Seq<Option<ContentSet>> = rest@;
    let mut out: Vec<ContentSet> = Vec::new();
    while rest.len() > 0
        invariant
            rest@.len() <= orig.len(),
            rest@ == orig.skip(orig.len() - rest@.len()),
            out@ == resolved_prefix(orig, orig.len() - rest@.len()),
        decreases rest@.len(),
    {
        let ghost k = orig.len() - rest@.len();
        proof {
            assert(0 <= k < orig.len());
            assert(rest@[0] == orig.skip(k)[0]);
        }
        let first = rest.remove(0);
        proof {
            assert(first == orig[k]);
            assert(rest@ =~= orig.skip(k + 1));
        }
        match first {
            Some(cs) => {
                out.push(cs);
            },
            None => {},
        }
        proof {
            assert(out@ =~= resolved_prefix(orig, k + 1));
        }
    }
    out
}

} // verus!
