//! The data that requests, replies and the database exchange.
pub mod base64_serde;
pub mod config;
pub mod data;
pub mod manifest;
pub mod oauth;
pub mod sync;

pub use config::{Config, EnvVars, KeyValidationError};
pub use data::{DataEntry, DataManifestEntry, DbFailure, SavedEntry};
pub use manifest::ManifestResponse;
pub use oauth::{DiscordAccessTokenResult, DiscordUserResult, OAuthCallback};
pub use sync::{
    ClientManifestEntry, DownloadEntry, SyncError, SyncRequest, SyncResponse, UploadEntry,
    UploadResult,
};
