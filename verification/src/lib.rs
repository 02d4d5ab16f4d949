//! Caching and refresh core of a cost dashboard.
//!
//! The dashboard asks an external command for rated resources, adds up the
//! cost of each service and shows the result as a chart. This library is the
//! part of it that has rules worth proving:
//!
//! - `fingerprint`: the key of a query, a digest of its command line;
//! - `cache`: a time-bounded cache of query results under such keys;
//! - `dates` and `command`: the date bounds of a query, its command line and
//!   the form of the command line that is safe to log;
//! - `data`: the fetch pipeline, which plans a fetch against the cache and
//!   takes its outcome;
//! - `aggregation`, `ranking` and `models`: the summary of a document and the
//!   chart that is drawn from it;
//! - `refresh`: the coordinator of the one snapshot that readers see;
//! - `clock`: the monotonic clock that entries age by.
//!
//! Every rule is stated over plain values: the time is an argument, and the
//! arithmetic on costs is handed in by the caller.

pub mod aggregation;
pub mod cache;
pub mod clock;
pub mod command;
pub mod data;
pub mod dates;
pub mod fingerprint;
pub mod models;
pub mod ranking;
pub mod refresh;
