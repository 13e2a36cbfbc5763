//! Indexing of photo folders: classification, pairing of RAW and raster
//! siblings, filtering and statistics over photo collections.

pub mod filter;
pub mod format;
pub mod metadata;
pub mod pairing;
pub mod photo;
pub mod scan;
pub mod stats;
