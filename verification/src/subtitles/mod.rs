//! Reading and querying subtitles.
//!
//! SRT, WebVTT, ASS and SSA are read as text; of the ASS style tags only the
//! placement, weight, slant and colour of a cue are kept.

pub mod ass;
pub mod bitmap;
pub mod load;
pub mod markup;
pub mod parse;
pub mod timestamp;
pub mod track;
pub mod written;

pub use self::ass::parse_ass;
pub use self::bitmap::{BitmapSubtitle, BitmapSubtitleTrack};
pub use self::load::load_file;
pub use self::markup::{
    clean_ass_text, embedded_ass_to_styled, embedded_ass_to_text, parse_ass_style, CueStyle,
};
pub use self::parse::{parse_srt, parse_vtt, SubtitleError};
pub use self::track::{SubtitleCue, SubtitleTrack};
