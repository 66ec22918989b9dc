//! Downloads of large files: what is on disk, what each asset's state is, and what a
//! download worker does next.
//!
//! Nothing here knows what the files are for. A caller describes what it wants as
//! [`types::Asset`]s, and the host performs the requests and disk operations that the
//! registry and the worker ask for.
pub mod types;
pub mod stream;
pub mod worker;
pub mod transfer;
pub mod registry;
