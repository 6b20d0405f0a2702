//! Finds duplicate photos: command-line handling, configuration, image
//! records, content hashing, scanning decisions and the duplicate-group
//! views served by the web interface.

pub mod text;
pub mod cli;
pub mod config;
pub mod hasher;
pub mod database;
pub mod order;
pub mod shared_state;
pub mod web_ui;
pub mod scanner;
