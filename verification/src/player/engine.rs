//! The controls of a session.

use super::clock::{PlaybackClock, clamped_speed, saturate, saturated};
use super::state::{SharedState, after_count, clamped_gain};
use crate::decoder::{DemuxCommand, DemuxConfig};
use vstd::prelude::*;

verus! {

/// The sizes of the queues between the threads.
pub const COMMAND_QUEUE: usize = 32;

pub const VIDEO_PACKET_QUEUE: usize = 60;

pub const AUDIO_PACKET_QUEUE: usize = 120;

pub const VIDEO_FRAME_QUEUE: usize = 6;

/// The greatest volume, in thousandths.
pub const MAX_VOLUME_MILLI: u32 = 1250;

/// A session: a medium that is open.
#[derive(Debug)]
pub struct PlayerEngine {
    pub shared: SharedState,
}

/// A position, which is never before the beginning.
pub open spec fn not_negative(us: i64) -> i64 {
    if us < 0 {
        0
    } else {
        us
    }
}

/// Where going forward or back by `delta` leads from a position: never before the
/// beginning.
pub open spec fn relative_target(position: i64, delta: int) -> i64 {
    not_negative(saturated(not_negative(position) + delta))
}

/// A volume brought into its range.
pub open spec fn limited_volume(milli: u32) -> u32 {
    if milli > MAX_VOLUME_MILLI {
        MAX_VOLUME_MILLI
    } else {
        milli
    }
}

impl PlayerEngine {
    /// Opens a medium, which is played at once. Says how to demux it.
    pub fn open(source: &str, has_audio_output: bool, start_at_us: Option<i64>, at: u64) -> (r: (
        PlayerEngine,
        DemuxConfig,
    ))
        ensures
            r.0.shared.wf(),
            r.0.shared.clock == (PlaybackClock {
                anchor_media_us: 0,
                anchor_at_us: at,
                speed_milli: 1000,
                paused: false,
                started: false,
            }),
            r.0.shared.is_new(),
            r.1.source@ == source@,
            r.1.start_at_us == start_at_us,
            r.1.audio_enabled == has_audio_output,
    {
        let mut shared = SharedState::new(at);
        shared.clock.set_paused(false, at);
        (
            PlayerEngine { shared },
            DemuxConfig {
                source: source.to_owned(),
                start_at_us,
                audio_enabled: has_audio_output,
            },
        )
    }

    pub fn is_paused(&self) -> (r: bool)
        ensures
            r == self.shared.clock.paused,
    {
        self.shared.clock.is_paused()
    }

    /// Pauses or resumes.
    pub fn set_paused(&mut self, paused: bool, at: u64)
        ensures
            final(self).shared == (SharedState {
                clock: if old(self).shared.clock.paused == paused {
                    old(self).shared.clock
                } else {
                    PlaybackClock { paused, ..old(self).shared.clock.anchored(at) }
                },
                ..old(self).shared
            }),
    {
        self.shared.clock.set_paused(paused, at);
    }

    /// Pauses where it plays, and resumes where it is paused.
    pub fn toggle_pause(&mut self, at: u64)
        ensures
            final(self).shared == (SharedState {
                clock: PlaybackClock {
                    paused: !old(self).shared.clock.paused,
                    ..old(self).shared.clock.anchored(at)
                },
                ..old(self).shared
            }),
    {
        let paused: bool = self.is_paused();
        self.set_paused(!paused, at);
    }

    /// The position.
    pub fn position_us(&self, at: u64) -> (r: i64)
        ensures
            r == not_negative(self.shared.clock.position(at)),
    {
        let now: i64 = self.shared.clock.now_us(at);
        if now < 0 {
            0
        } else {
            now
        }
    }

    /// The length, zero where it is unknown.
    pub fn duration_us(&self) -> (r: i64)
        ensures
            r == self.shared.duration_us,
    {
        self.shared.duration_us
    }

    /// The command that goes to a position.
    pub fn seek(&self, target_us: i64) -> (cmd: DemuxCommand)
        ensures
            cmd == DemuxCommand::Seek(not_negative(target_us)),
    {
        if target_us < 0 {
            DemuxCommand::Seek(0)
        } else {
            DemuxCommand::Seek(target_us)
        }
    }

    /// The command that goes forward or back.
    pub fn seek_relative(&self, delta_us: i64, at: u64) -> (cmd: DemuxCommand)
        ensures
            cmd == DemuxCommand::Seek(
                not_negative(
                    saturated(not_negative(self.shared.clock.position(at)) + delta_us),
                ),
            ),
            cmd == DemuxCommand::Seek(
                relative_target(self.shared.clock.position(at), delta_us as int),
            ),
    {
        let target: i64 = saturate(self.position_us(at) as i128 + delta_us as i128);
        self.seek(target)
    }

    /// Sets the speed, in thousandths, brought into its range.
    pub fn set_speed(&mut self, speed_milli: u32, at: u64)
        ensures
            final(self).shared == (SharedState {
                speed_milli: clamped_speed(speed_milli),
                clock: PlaybackClock {
                    speed_milli: clamped_speed(speed_milli),
                    ..old(self).shared.clock.anchored(at)
                },
                ..old(self).shared
            }),
    {
        self.shared.set_speed(speed_milli, at);
    }

    /// Sets the volume, in thousandths.
    pub fn set_volume(&mut self, volume_milli: u32)
        ensures
            final(self).shared == (SharedState {
                volume_milli: if volume_milli > MAX_VOLUME_MILLI {
                    MAX_VOLUME_MILLI
                } else {
                    volume_milli
                },
                ..old(self).shared
            }),
            final(self).shared.volume_milli == limited_volume(volume_milli),
    {
        self.shared.volume_milli = if volume_milli > MAX_VOLUME_MILLI {
            MAX_VOLUME_MILLI
        } else {
            volume_milli
        };
    }

    /// Mutes or unmutes.
    pub fn set_muted(&mut self, muted: bool)
        ensures
            final(self).shared == (SharedState { muted, ..old(self).shared }),
    {
        self.shared.muted = muted;
    }

    /// The command that chooses an audio track.
    pub fn select_audio_track(&self, stream_index: usize) -> (cmd: DemuxCommand)
        ensures
            cmd == DemuxCommand::SelectAudioTrack(stream_index),
    {
        DemuxCommand::SelectAudioTrack(stream_index)
    }

    /// The command that chooses a subtitle track, or none.
    pub fn select_subtitle_track(&self, stream_index: Option<usize>) -> (cmd: DemuxCommand)
        ensures
            cmd == DemuxCommand::SelectSubtitleTrack(stream_index),
    {
        DemuxCommand::SelectSubtitleTrack(stream_index)
    }

    /// Shows subtitles later by so many microseconds.
    pub fn set_subtitle_delay(&mut self, delay_us: i64)
        ensures
            final(self).shared == (SharedState { subtitle_delay_us: delay_us, ..old(self).shared }),
    {
        self.shared.subtitle_delay_us = delay_us;
    }

    /// Plays the sound later by so many microseconds.
    pub fn set_audio_delay(&mut self, delay_us: i64)
        ensures
            final(self).shared == (SharedState { audio_delay_us: delay_us, ..old(self).shared }),
    {
        self.shared.audio_delay_us = delay_us;
    }

    /// Replaces the gains of the equaliser.
    pub fn set_equalizer(&mut self, gains: [i32; 10])
        ensures
            final(self).shared == (SharedState {
                equalizer: gains,
                eq_generation: after_count(old(self).shared.eq_generation),
                ..old(self).shared
            }),
    {
        self.shared.set_equalizer(gains);
    }

    /// Sets the gain of one band of the equaliser; there are ten.
    pub fn set_equalizer_band(&mut self, band: usize, gain: i32)
        ensures
            band >= 10 ==> final(self).shared == old(self).shared,
            band < 10 ==> final(self).shared.equalizer@ == old(self).shared.equalizer@.update(
                band as int,
                clamped_gain(gain),
            ) && final(self).shared == (SharedState {
                equalizer: final(self).shared.equalizer,
                eq_generation: after_count(old(self).shared.eq_generation),
                ..old(self).shared
            }),
    {
        self.shared.set_equalizer_band(band, gain);
    }

    /// How far a single picture is: its duration, or a twenty-fourth of a second
    /// where that is unknown.
    pub open spec fn picture_step(&self) -> int {
        if self.shared.frame_duration_us > 0 {
            self.shared.frame_duration_us as int
        } else {
            41_666
        }
    }

    /// The command that goes to the next picture or to the one before.
    pub fn step_frame(&self, forward: bool, at: u64) -> (cmd: DemuxCommand)
        ensures
            cmd == DemuxCommand::Seek(
                not_negative(
                    saturated(
                        not_negative(self.shared.clock.position(at)) + (if forward {
                            self.picture_step()
                        } else {
                            -self.picture_step()
                        }),
                    ),
                ),
            ),
            forward ==> cmd == DemuxCommand::Seek(
                relative_target(self.shared.clock.position(at), self.picture_step()),
            ),
            !forward ==> cmd == DemuxCommand::Seek(
                relative_target(self.shared.clock.position(at), -self.picture_step()),
            ),
    {
        let step: i64 = if self.shared.frame_duration_us > 0 {
            self.shared.frame_duration_us
        } else {
            41_666
        };
        let delta: i64 = if forward {
            step
        } else {
            -step
        };
        self.seek_relative(delta, at)
    }

    /// The command that shows the picture anew, which a paused session needs
    /// after its look has changed.
    pub fn redraw(&self, at: u64) -> (cmd: Option<DemuxCommand>)
        ensures
            cmd == (if self.shared.clock.paused {
                Some(DemuxCommand::Seek(not_negative(self.shared.clock.position(at))))
            } else {
                None
            }),
    {
        if self.is_paused() {
            Some(self.seek(self.position_us(at)))
        } else {
            None
        }
    }

    /// Asks all the threads to end.
    pub fn stop(&mut self)
        ensures
            final(self).shared == (SharedState { stop: true, ..old(self).shared }),
    {
        self.shared.stop = true;
    }
}

// ---- Laws ------------------------------------------------------------------

/// Going forward or back leads as far as is asked, and to the beginning where that lies
/// nearer; going the same way back undoes it.
pub proof fn law_going_by_a_distance(position: i64, delta: int)
    requires
        0 <= position,
        position + delta <= i64::MAX,
    ensures
        position + delta >= 0 ==> relative_target(position, delta) == position + delta,
        position + delta < 0 ==> relative_target(position, delta) == 0,
        position + delta >= 0 ==> relative_target(relative_target(position, delta), -delta)
            == position,
        not_negative(position) == position,
{
}

/// No position lies before the beginning, and none is moved that does not.
pub proof fn law_positions_begin_at_zero(us: i64)
    ensures
        not_negative(us) >= 0,
        us >= 0 ==> not_negative(us) == us,
        us < 0 ==> not_negative(us) == 0,
{
}

/// The volume goes up to a quarter above the full one, and is kept up to there.
pub proof fn law_volume_has_a_limit(milli: u32)
    ensures
        limited_volume(milli) <= 1250,
        milli <= 1250 ==> limited_volume(milli) == milli,
        milli > 1250 ==> limited_volume(milli) == 1250,
{
}

/// A single picture is as far as the medium says, or a twenty-fourth of a second.
pub proof fn law_picture_step(engine: PlayerEngine)
    ensures
        engine.shared.frame_duration_us > 0 ==> engine.picture_step()
            == engine.shared.frame_duration_us,
        engine.shared.frame_duration_us <= 0 ==> 24 * engine.picture_step() <= 1_000_000 < 24 * (
        engine.picture_step() + 1),
{
}

} // verus!
