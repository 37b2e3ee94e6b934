pub mod be;
pub mod config;
pub mod dto;
pub mod error;
pub mod index;
pub mod laws;
pub mod log;
pub mod record;
pub mod recovery;
pub mod segment;
pub mod store;
