pub mod cli;
pub mod command;
pub mod config;
pub mod connection;
pub mod frame;
pub mod info;
pub mod number;
pub mod publisher;
pub mod redis_args;
pub mod replicator;
pub mod store;
pub mod text;
