//! Batch data-movement toolkit for reconciling a local filesystem with a
//! remote key/container object store: location parsing, glob filtering,
//! byte-range resolution, multipart-upload planning, diff/sync
//! classification, and lock-step byte comparison.
pub mod text;
pub mod decimal;
pub mod path_utils;
pub mod range;
pub mod filters;
pub mod checksum;
pub mod config;
pub mod stat;
pub mod multipart;
pub mod cmp;
pub mod transfer;
pub mod diff;
pub mod sync;
