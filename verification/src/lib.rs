//! A verified core for a package installer/synchronizer.
//!
//! The crate models the data flow of a sync pipeline: requirement sources are
//! aggregated into a normalized specification, a project's workspace is
//! discovered, each requested distribution is classified and given stable
//! identity keys, the desired set is diffed against the installed environment
//! into an installation plan, and the plan is applied under at-most-once
//! fetch semantics, producing a change report.
//!
//! Filesystem walks, network fetches, archive handling and manifest parsing
//! happen outside this crate; the functions here take their results as plain
//! values and are verified for every such value.

pub mod discovery;
pub mod dist;
pub mod error;
pub mod executor;
pub mod file;
pub mod filename;
pub mod id;
pub mod installed;
pub mod name;
pub mod plan;
pub mod report;
pub mod requirement;
pub mod specification;
pub mod url;
pub mod version;
pub mod strutil;
pub mod sync;
