//! Demuxing and decoding: what to do with streams, packets and pictures.
//!
//! Each seek begins a new generation. Packets and pictures of an older one are
//! dropped, which keeps seeks fast though the queues are full.

pub mod audio;
pub mod audio_filter;
pub mod demux;
pub mod hwaccel;
pub mod packets;
pub mod streams;
pub mod time;
pub mod video;

pub use self::audio_filter::EQ_FREQUENCIES;
pub use self::time::{ts_to_us, DemuxCommand, DemuxConfig, Rational};
pub use self::video::{run_video_decoder, VideoFrameMsg};
