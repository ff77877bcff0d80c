//! Verified text handling for a bot that relays chat between Discord and an SRB2 game server.
pub mod text;
pub mod number;
pub mod sanitize;
pub mod message_file;
pub mod relay;
pub mod config;
pub mod cli;
