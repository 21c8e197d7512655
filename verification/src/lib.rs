//! Verified core of the panopticon backstage server.

pub mod assets;
pub mod cache;
pub mod cli;
pub mod config;
pub mod gatchpt;
pub mod ip;
pub mod json;
pub mod proxy;
pub mod upstream;
pub mod text;
