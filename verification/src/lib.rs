//! Lyrics formats, sanitizers and provider logic for a Navidrome lyrics plugin.
pub mod format;
pub mod num;
pub mod text;
pub mod unicode;
pub mod sanitize;
pub mod pattern;
pub mod types;
pub mod config;
pub mod hash;
pub mod fetch;
pub mod cache;
pub mod ext;
pub mod providers;
pub mod writing;
pub mod storage;
