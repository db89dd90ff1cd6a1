//! A tiered media store: photos are ingested by content hash with deduplication, moved
//! between ordered storage tiers, soft-deleted into a trash, given cached thumbnails, and
//! grouped into duplicates and bursts. The catalog logic is verified; the file system,
//! database and image codecs are driven by the caller through small plan/commit steps.
pub mod bulk;
pub mod clock;
pub mod grouping;
pub mod hashing;
pub mod lifecycle;
pub mod naming;
pub mod paths;
pub mod records;
pub mod search;
pub mod store;
pub mod thumbnail;
pub mod tier;
