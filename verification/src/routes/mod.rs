//! The answers of the service, route by route.
pub mod account;
pub mod data;
pub mod health;
pub mod manifest;
pub mod metrics;
pub mod oauth;
pub mod settings;
