//! The decisions behind the service's HTTP endpoints.
pub mod backups;
pub mod connections;
pub mod restore;
pub mod schedules;
