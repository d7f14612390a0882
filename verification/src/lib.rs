//! A browsable home screen of media shelves.
//!
//! The library owns the catalog model, the navigation and selection state
//! machine with its geometry, and the decision logic of the content
//! pipeline (curation, batching, order-preserving resolution).  Network
//! fetching and rendering are left to the surrounding application, which
//! feeds plain values in and reads plain values out.

pub mod event;
pub mod geom;
pub mod home_page;
pub mod layout;
pub mod model;
pub mod pipeline;
pub mod shelf;
pub mod tile;
