//! Extraction of one partition image from an A/B OTA payload container.
pub mod bytes;
pub mod error;
pub mod header;
pub mod wire;
pub mod manifest;
pub mod select;
pub mod plan;
pub mod image;
pub mod extract;
pub mod laws;
