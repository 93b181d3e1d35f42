//! Core logic of a backup-plan worker agent: cron evaluation, per-minute
//! dispatch deduplication, and a bounded, durable queue of outcome reports.

use vstd::prelude::*;

pub mod cli;
pub mod clock;
pub mod cron;
pub mod dedup;
pub mod errtext;
pub mod persist;
pub mod plans;
pub mod queue;
pub mod rclone;
pub mod report;
pub mod supervisor;
pub mod text;
pub mod timepoint;

verus! {

/// The queue of undelivered reports holds at most this many entries.
pub const PENDING_REPORTS_MAX: usize = 500;

/// A report is dropped once its delivery attempt count exceeds this bound.
pub const PENDING_REPORT_MAX_ATTEMPTS: u32 = 20;

} // verus!
