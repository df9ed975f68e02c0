//! The render-time view of the single data-loader fetch. The fetch itself
//! (network, credentials, retries) is an external collaborator; the core
//! only distinguishes the three states a render can observe and treats
//! anything but a successful collection as an empty catalog.

use vstd::prelude::*;

use crate::model::{Item, Record};

verus! {

/// The observable state of the one fetch a page visit makes. It resolves
/// at most once: a render sees it pending, resolved with the full record
/// collection, or resolved with a descriptive failure.
pub enum LoadState {
    /// The fetch has not resolved yet.
    Pending,
    /// The fetch resolved with the full record collection.
    Loaded(Vec<Record<Item>>),
    /// The fetch failed; the message describes the failure for diagnostics.
    Failed(String),
}

/// The record collection a render works with: the loaded records when the
/// fetch succeeded, and the empty catalog while it is pending or after it
/// failed. A failure is never fatal to the page.
pub fn visible_records(state: LoadState) -> (r: Vec<Record<Item>>)
    ensures
        match state {
            LoadState::Loaded(rs) => r@ == rs@,
            _ => r@ == Seq::<Record<Item>>::empty(),
        },
{
    match state {
        LoadState::Loaded(rs) => rs,
        _ => Vec::new(),
    }
}

} // verus!
