//! The request and the reply of a sync.
use crate::text;
use crate::types::data::{DataManifestEntry, DataManifestEntryView};
use vstd::prelude::*;

verus! {

/// What a client says it holds for a key.
#[derive(Debug)]
pub struct ClientManifestEntry {
    pub key: String,
    pub version: i64,
    pub checksum: String,
}

/// What [`ClientManifestEntry`] holds.
pub struct ClientManifestEntryView {
    pub key: Seq<char>,
    pub version: i64,
    pub checksum: Seq<char>,
}

impl View for ClientManifestEntry {
    type V = ClientManifestEntryView;

    open spec fn view(&self) -> ClientManifestEntryView {
        ClientManifestEntryView {
            key: self.key@,
            version: self.version,
            checksum: self.checksum@,
        }
    }
}

/// A value that a client wants stored.
#[derive(Debug)]
pub struct UploadEntry {
    pub key: String,
    pub value: Vec<u8>,
    pub checksum: Option<String>,
}

/// What [`UploadEntry`] holds.
pub struct UploadEntryView {
    pub key: Seq<char>,
    pub value: Seq<u8>,
    pub checksum: Option<Seq<char>>,
}

impl View for UploadEntry {
    type V = UploadEntryView;

    open spec fn view(&self) -> UploadEntryView {
        UploadEntryView {
            key: self.key@,
            value: self.value@,
            checksum: text::option_view(self.checksum),
        }
    }
}

/// What a client sends to be brought up to date.
#[derive(Debug)]
pub struct SyncRequest {
    pub client_manifest: Vec<ClientManifestEntry>,
    pub uploads: Vec<UploadEntry>,
}

/// What [`SyncRequest`] holds.
pub struct SyncRequestView {
    pub client_manifest: Seq<ClientManifestEntryView>,
    pub uploads: Seq<UploadEntryView>,
}

impl View for SyncRequest {
    type V = SyncRequestView;

    open spec fn view(&self) -> SyncRequestView {
        SyncRequestView {
            client_manifest: self.client_manifest@.map_values(|e: ClientManifestEntry| e@),
            uploads: self.uploads@.map_values(|e: UploadEntry| e@),
        }
    }
}

/// A stored value sent to a client.
#[derive(Debug)]
pub struct DownloadEntry {
    pub key: String,
    pub value: Vec<u8>,
    pub version: i64,
    pub checksum: String,
}

/// What [`DownloadEntry`] holds.
pub struct DownloadEntryView {
    pub key: Seq<char>,
    pub value: Seq<u8>,
    pub version: i64,
    pub checksum: Seq<char>,
}

impl View for DownloadEntry {
    type V = DownloadEntryView;

    open spec fn view(&self) -> DownloadEntryView {
        DownloadEntryView {
            key: self.key@,
            value: self.value@,
            version: self.version,
            checksum: self.checksum@,
        }
    }
}

/// What became of a stored upload.
#[derive(Debug)]
pub struct UploadResult {
    pub key: String,
    pub version: i64,
    pub checksum: String,
}

/// What [`UploadResult`] holds.
pub struct UploadResultView {
    pub key: Seq<char>,
    pub version: i64,
    pub checksum: Seq<char>,
}

impl View for UploadResult {
    type V = UploadResultView;

    open spec fn view(&self) -> UploadResultView {
        UploadResultView {
            key: self.key@,
            version: self.version,
            checksum: self.checksum@,
        }
    }
}

/// Why nothing was done for a key.
#[derive(Debug)]
pub struct SyncError {
    pub key: String,
    pub error: String,
}

/// What [`SyncError`] holds.
pub struct SyncErrorView {
    pub key: Seq<char>,
    pub error: Seq<char>,
}

impl View for SyncError {
    type V = SyncErrorView;

    open spec fn view(&self) -> SyncErrorView {
        SyncErrorView {
            key: self.key@,
            error: self.error@,
        }
    }
}

/// What a client gets back from a sync.
#[derive(Debug)]
pub struct SyncResponse {
    pub server_manifest: Vec<DataManifestEntry>,
    pub downloads: Vec<DownloadEntry>,
    pub uploaded: Vec<UploadResult>,
    pub errors: Vec<SyncError>,
}

/// What [`SyncResponse`] holds.
pub struct SyncResponseView {
    pub server_manifest: Seq<DataManifestEntryView>,
    pub downloads: Seq<DownloadEntryView>,
    pub uploaded: Seq<UploadResultView>,
    pub errors: Seq<SyncErrorView>,
}

impl View for SyncResponse {
    type V = SyncResponseView;

    open spec fn view(&self) -> SyncResponseView {
        SyncResponseView {
            server_manifest: self.server_manifest@.map_values(|e: DataManifestEntry| e@),
            downloads: self.downloads@.map_values(|e: DownloadEntry| e@),
            uploaded: self.uploaded@.map_values(|e: UploadResult| e@),
            errors: self.errors@.map_values(|e: SyncError| e@),
        }
    }
}

} // verus!
