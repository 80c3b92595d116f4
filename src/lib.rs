pub mod cli;
pub mod codec;
pub mod config;
pub mod fuzzy;
pub mod laws;
pub mod repository;
pub mod snippet;
pub mod store;
pub mod text;
