//! Stored values and what a listing says of them.
use vstd::prelude::*;

verus! {

/// The database could not answer.
#[derive(Debug, Clone, Copy, PartialEq, Eq, Structural)]
pub struct DbFailure;

/// A stored value with its description.
#[derive(Debug, Clone)]
pub struct DataEntry {
    pub key: String,
    pub value: Vec<u8>,
    pub version: i64,
    pub checksum: String,
    pub size_bytes: i32,
    pub created_at: i64,
    pub updated_at: i64,
}

/// What [`DataEntry`] holds.
pub struct DataEntryView {
    pub key: Seq<char>,
    pub value: Seq<u8>,
    pub version: i64,
    pub checksum: Seq<char>,
    pub size_bytes: i32,
    pub created_at: i64,
    pub updated_at: i64,
}

impl View for DataEntry {
    type V = DataEntryView;

    open spec fn view(&self) -> DataEntryView {
        DataEntryView {
            key: self.key@,
            value: self.value@,
            version: self.version,
            checksum: self.checksum@,
            size_bytes: self.size_bytes,
            created_at: self.created_at,
            updated_at: self.updated_at,
        }
    }
}

/// The description of a stored value.
#[derive(Debug, Clone)]
pub struct DataManifestEntry {
    pub key: String,
    pub version: i64,
    pub checksum: String,
    pub size_bytes: i32,
    pub updated_at: i64,
}

/// What [`DataManifestEntry`] holds.
pub struct DataManifestEntryView {
    pub key: Seq<char>,
    pub version: i64,
    pub checksum: Seq<char>,
    pub size_bytes: i32,
    pub updated_at: i64,
}

impl View for DataManifestEntry {
    type V = DataManifestEntryView;

    open spec fn view(&self) -> DataManifestEntryView {
        DataManifestEntryView {
            key: self.key@,
            version: self.version,
            checksum: self.checksum@,
            size_bytes: self.size_bytes,
            updated_at: self.updated_at,
        }
    }
}

/// What was written for a value.
#[derive(Debug)]
pub struct SavedEntry {
    pub key: String,
    pub version: i64,
    pub checksum: String,
    pub size_bytes: i32,
    pub updated_at: i64,
}

/// What [`SavedEntry`] holds.
pub struct SavedEntryView {
    pub key: Seq<char>,
    pub version: i64,
    pub checksum: Seq<char>,
    pub size_bytes: i32,
    pub updated_at: i64,
}

impl View for SavedEntry {
    type V = SavedEntryView;

    open spec fn view(&self) -> SavedEntryView {
        SavedEntryView {
            key: self.key@,
            version: self.version,
            checksum: self.checksum@,
            size_bytes: self.size_bytes,
            updated_at: self.updated_at,
        }
    }
}

} // verus!
