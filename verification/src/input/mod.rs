pub mod cli;
pub mod event;
