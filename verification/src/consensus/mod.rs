pub mod config;
pub mod messages;
