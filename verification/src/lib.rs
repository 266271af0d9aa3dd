//! The logic of equicloud, a service that keeps the settings and the data of chat
//! clients in sync: what is stored, what is answered, and who may ask.
pub mod auth;
pub mod base64_text;
pub mod constants;
pub mod database;
pub mod digest;
pub mod headers;
pub mod index;
pub mod keys;
pub mod lookup;
pub mod merge;
pub mod migration_run;
pub mod migrations;
pub mod numbers;
pub mod reply;
pub mod rounds;
pub mod routes;
pub mod server;
pub mod sync;
pub mod sync_laws;
pub mod sync_total;
pub mod tables;
pub mod text;
pub mod types;
pub mod utils;
pub mod variables;

pub use database::DatabaseService;
pub use migrations::MigrationRunner;
pub use reply::error_response;
pub use types::{DataEntry, DataManifestEntry, KeyValidationError};
pub use utils::{compress, compute_checksum, decompress, validate_key};
