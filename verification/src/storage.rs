//! The service's stored records and the rules that govern changes to them.
pub mod connections;
pub mod schedules;
pub mod users;
