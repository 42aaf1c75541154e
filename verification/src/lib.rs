//! Release-manifest assembly for an auto-update client.
//!
//! The library selects the newest publicly usable release from a list
//! returned by a source-control hosting API, resolves per-platform
//! download URLs and detached signatures from the release's asset names,
//! and renders the resulting manifest as a JSON document. All network,
//! environment and file handling lives outside the library; it works on
//! plain values handed in by the caller.

pub mod error;
pub mod json;
pub mod manifest;
pub mod platform;
pub mod release;
