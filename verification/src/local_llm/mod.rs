//! Local models: their catalog, their files, their metadata and the server that runs them.
pub mod asset_provider;
pub mod catalog;
pub mod gguf;
pub mod health;
pub mod launch;
pub mod manager;
