//! A single-node store for video files: a replicated, hash-sharded placement
//! of each file's bytes over a fixed ring of buckets, a registry of the files
//! that enforces unique names, and a ranking of the most downloaded files.
//!
//! The library decides and never touches the disk, the clock or a lock: it
//! says where the replicas of a file lie and in which order they are probed,
//! whether an upload is admitted, what a download hands out, and which files
//! are listed. The service round it carries the plans out.
//!
//! - [`fileid`]: identifiers, their text, their hash.
//! - [`storage`]: the placement ring and the retrieval of a file.
//! - [`disk`]: a model of the bucket directories, and what the plans of the
//!   ring achieve on it.
//! - [`files`]: the registry.
//! - [`ext_feature`]: the most downloaded files.
//! - [`health`]: the health check.

pub mod disk;
pub mod ext_feature;
pub mod fileid;
pub mod files;
pub mod health;
pub mod storage;
