//! Events delivered from the fetch pipeline to the presentation state.

use vstd::prelude::*;

verus! {

/// Declares `bytes::Bytes` so that it can stand in fields and signatures.
/// The library never looks inside such a value: it stores the fetched
/// payload and hands it back unchanged.
#[verifier::external_type_specification]
#[verifier::external_body]
pub struct ExBytes(bytes::Bytes);

/// One successfully fetched image: the URL it was fetched from (the join
/// key into the tile tree), the raw payload, and the title of the content
/// set the item belongs to.
pub struct ImageLoadEvent {
    pub img_url: String,
    pub bytes: bytes::Bytes,
    pub content_set_title: String,
}

/// A bounded group of fetched images, delivered to the presentation
/// state as one unit and applied event by event.
pub struct ImageLoadBatchEvent {
    pub events: Vec<ImageLoadEvent>,
}

} // verus!
