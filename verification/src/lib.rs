//! Curation helpers for a music collection: metadata key resolution,
//! Nix manifest rendering, disc TOC identifiers, metadata fetching and
//! collection entries.
pub mod text;
pub mod json;
pub mod digest;
pub mod glob;
pub mod natural_order;
pub mod pattern;
pub mod utils;
pub mod config;
pub mod manifest;
pub mod discid;
pub mod remote;
pub mod collection;
