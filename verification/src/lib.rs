//! An in-memory virtual filesystem for on-demand builds, together with the
//! per-request orchestration that runs one build against one fresh filesystem
//! instance and harvests its contents as an immutable snapshot.
//!
//! The filesystem is a flat store of path -> byte-content entries plus a flat
//! set of directory existence markers. Every operation is specified against a
//! mathematical view (`Map<Seq<char>, Seq<u8>>` for files, `Set<Seq<char>>`
//! for directories), and the laws the store obeys (write/read round trips,
//! idempotent directory creation, no torn writes under serialization) are
//! proved alongside the operations.

pub mod emit_plugin;
pub mod memory_fs;
pub mod orchestrator;
