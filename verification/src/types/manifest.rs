//! The listing of all of a user's values.
use crate::types::data::{DataManifestEntry, DataManifestEntryView};
use vstd::prelude::*;

verus! {

/// The listing of a user's values and the sum of their sizes.
#[derive(Debug)]
pub struct ManifestResponse {
    pub entries: Vec<DataManifestEntry>,
    pub total_size: i64,
}

/// What [`ManifestResponse`] holds.
pub struct ManifestResponseView {
    pub entries: Seq<DataManifestEntryView>,
    pub total_size: i64,
}

impl View for ManifestResponse {
    type V = ManifestResponseView;

    open spec fn view(&self) -> ManifestResponseView {
        ManifestResponseView {
            entries: self.entries@.map_values(|e: DataManifestEntry| e@),
            total_size: self.total_size,
        }
    }
}

} // verus!
