pub mod args;
pub mod config;
pub mod documents;
pub mod join;
pub mod matcher;
pub mod models;
pub mod rewrite;
