//! Backup jobs, archives and the schedule.
pub mod jobs;
pub mod runner;
pub mod scheduler;
