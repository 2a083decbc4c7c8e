//! Core of a cluster-mode observability backend: the hourly file-list
//! compactor and the write-ahead cache searcher.
//!
//! Manifest objects list data files for one UTC hour as newline-delimited
//! records inside a zstd frame.  The compactor merges all small manifests of
//! an hour into one, honouring tombstones, behind a distributed lock, and
//! advances a global watermark.  The cache searcher filters files still
//! sitting in the local write-ahead directory and hands the matches to an
//! external SQL executor while a process-wide indicator gates file eviction.

pub mod api;
pub mod codec;
pub mod compact;
pub mod merge;
pub mod record;
pub mod search;
pub mod stream;
