pub mod cdn;
pub mod config;
pub mod error;
pub mod tact;
