//! Screensaver manager core: text layout, markdown rendering model,
//! command-line parsing, configuration rules and screensaver cycling.

pub mod chars;
pub mod text;
pub mod markdown;
pub mod textbox;
pub mod layout;
pub mod state;
pub mod dashboard;
pub mod paths;
pub mod cycle;
pub mod downloader;
pub mod logger;
pub mod registry;
pub mod cli;
pub mod config;
pub mod prefs;
pub mod preview;
pub mod install;
pub mod panels;
