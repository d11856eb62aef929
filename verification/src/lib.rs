pub mod api;
pub mod author_feed;
pub mod calendar;
pub mod bsky_models;
pub mod cli;
pub mod client;
pub mod codegen;
pub mod config;
pub mod digest;
pub mod follows;
pub mod hashing;
pub mod json;
pub mod lexsync;
pub mod link_digest;
pub mod margin;
pub mod parallel;
pub mod tangled_models;
pub mod text;
