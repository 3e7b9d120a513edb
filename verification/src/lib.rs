//! A small object-storage core: named buckets holding keyed binary objects.
//!
//! The crate centres on three pieces: the bucket-naming validator and the
//! `Bucket` / `Object` value types, a storage contract (`BucketStorage`,
//! `ObjectStorage`, `Storage`) stated over a mathematical store model, and
//! two engines — an in-memory engine that implements the contract, and the
//! path-planning core of a filesystem engine whose actual file operations
//! live with the surrounding application.

pub mod bucket;
pub mod errors;
mod ids;
pub mod filestore;
pub mod memory;
pub mod object;
pub mod store;
