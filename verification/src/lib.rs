//! The decisions behind a terminal emulator with SSH and SFTP sessions.

pub mod auth;
pub mod config;
pub mod edit;
pub mod events;
pub mod failures;
pub mod hostkey;
pub mod listing;
pub mod lsof;
pub mod opening;
pub mod osc;
pub mod outside;
pub mod paths;
pub mod reconnect;
pub mod secrets;
pub mod sessions;
pub mod settings;
pub mod shells;
pub mod text;
pub mod transfer;
