pub mod assets;
pub mod client;
pub mod config;
pub mod daemon;
pub mod num;
pub mod laws;
pub mod listing;
pub mod paths;
pub mod release;
pub mod resolver;
pub mod rule_laws;
pub mod server;
pub mod text;
pub mod version_lines;
pub mod width;
