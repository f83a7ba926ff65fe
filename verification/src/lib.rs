pub mod blob;
pub mod draw;
pub mod config;
pub mod types;
