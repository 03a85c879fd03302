//! Background git work: what is requested, what is running and what comes back.
pub mod asyncjob;
pub mod branch_compare;
pub mod diff;
pub mod fetch_job;
pub mod filter_commits;
pub mod progress;
pub mod remote_progress;
pub mod revlog;
pub mod status;
pub mod sync;
