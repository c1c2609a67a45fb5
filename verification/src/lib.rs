pub mod config;
pub mod context;
pub mod display;
pub mod file_read;
pub mod input;
