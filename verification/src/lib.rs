//! Core of the OxiPlay media player.

pub mod app;
pub mod audio;
pub mod decoder;
pub mod desktop;
pub mod json;
pub mod lowercase;
pub mod number;
pub mod opensubtitles;
pub mod paths;
pub mod player;
pub mod playlist;
pub mod recording;
pub mod render;
pub mod settings;
pub mod streaming;
pub mod subtitles;
pub mod text;
pub mod text_facts;
pub mod text_map;
pub mod update;
pub mod utils;
pub mod video;
pub mod ytdlp;
