pub mod archive;
pub mod btle;
pub mod common;
pub mod root;
