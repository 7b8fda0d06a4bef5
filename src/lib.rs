//! Opens a URL in the browser profile that a user's configuration selects.
//!
//! The library holds the decisions: where the configuration file is looked
//! for, which profile directory a URL belongs to, and which browser
//! executable is used. Reading files, parsing TOML and starting the browser
//! are left to the program around it.
pub mod browser;
pub mod config;
pub mod locator;
pub mod paths;
pub mod selector;
