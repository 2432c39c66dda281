//! The logic of a language server for `.http` request files.

pub mod cache;
pub mod cli;
pub mod commands;
pub mod cursor;
pub mod dependencies;
pub mod formatter;
pub mod handler;
pub mod json;
pub mod model;
pub mod numbers;
pub mod protocol;
pub mod responses;
pub mod saving;
pub mod session;
pub mod table;
pub mod text;
pub mod uris;
