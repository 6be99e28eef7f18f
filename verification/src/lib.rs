pub mod append;
pub mod blocks;
pub mod cleanup;
pub mod commands;
pub mod entry;
pub mod laws;
pub mod lines;
pub mod messages;
pub mod parser;
pub mod paths;
pub mod remove;
pub mod text;
