//! Verified core of a small self-hosted MongoDB backup and restore service.
pub mod auth;
pub mod backup;
pub mod clock;
pub mod config;
pub mod error;
pub mod handlers;
pub mod ids;
pub mod storage;
pub mod text;
