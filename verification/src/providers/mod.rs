//! The lyrics providers: what they ask for and how they read the answers.
pub mod error;
pub mod http;
pub mod timed;
pub mod krc;
pub mod yrc;
pub mod lrcmux;
pub mod netease;
pub mod applemusic;
pub mod stixoi;
pub mod kugou;
pub mod lrclib;
pub mod lyricsovh;
pub mod qqmusic;
