//! Core of a small catalog page: items fetched from a schema-flexible
//! tabular store are normalized into a view model, a sorted deduplicated
//! category index is derived from them, and the visible items are filtered
//! by publish state and an optional category selection.
//!
//! The remote fetch and the rendering are collaborators outside this
//! library; everything here is a pure transformation over already-loaded
//! data.

pub mod filter;
pub mod index;
pub mod loader;
pub mod model;
pub mod normalize;
pub mod raw;
pub mod strings;
