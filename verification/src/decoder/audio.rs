//! The audio decoder: what it does with messages and decoded sound.

use super::time::{Rational, timestamp_to_us, ts_to_us};
use super::video::{DecoderMessage, DecoderStep, decoder_step_spec};
use crate::player::state::SharedState;
use crate::text::{from_chars, push_text, to_chars};
use vstd::prelude::*;

verus! {

/// The audio decoder.
#[derive(Debug, Clone, Copy, PartialEq, Eq, Structural)]
pub struct AudioDecoder {
    /// Whether a stream is decoded.
    pub has_decoder: bool,
    /// Whether the last packet has come.
    pub eof: bool,
}

impl AudioDecoder {
    /// The decoder after a message.
    pub open spec fn after(self, current_generation: u64, message: DecoderMessage) -> AudioDecoder {
        match message {
            DecoderMessage::Packet { generation } => AudioDecoder {
                eof: if generation == current_generation {
                    false
                } else {
                    self.eof
                },
                ..self
            },
            DecoderMessage::Reconfigure { opened } => if opened {
                AudioDecoder { has_decoder: true, eof: false }
            } else {
                self
            },
            DecoderMessage::Flush => AudioDecoder { eof: false, ..self },
            DecoderMessage::Eof => AudioDecoder { eof: true, ..self },
        }
    }

    /// A decoder that has no stream yet.
    pub fn new() -> (d: AudioDecoder)
        ensures
            d == (AudioDecoder { has_decoder: false, eof: false }),
    {
        AudioDecoder { has_decoder: false, eof: false }
    }

    /// What the audio decoder does with a message. After a flush its graph has
    /// to be built anew.
    pub fn run_audio_decoder(&mut self, current_generation: u64, message: DecoderMessage) -> (step:
        DecoderStep)
        ensures
            *final(self) == old(self).after(current_generation, message),
            step == decoder_step_spec(old(self).has_decoder, current_generation, message),
    {
        let had: bool = self.has_decoder;
        match message {
            DecoderMessage::Packet { generation } => {
                if generation == current_generation {
                    self.eof = false;
                    if had {
                        DecoderStep::Decode
                    } else {
                        DecoderStep::Skip
                    }
                } else {
                    DecoderStep::Skip
                }
            },
            DecoderMessage::Reconfigure { opened } => {
                if opened {
                    self.has_decoder = true;
                    self.eof = false;
                    DecoderStep::Adopt
                } else {
                    DecoderStep::Report
                }
            },
            DecoderMessage::Flush => {
                self.eof = false;
                if had {
                    DecoderStep::Flush
                } else {
                    DecoderStep::Skip
                }
            },
            DecoderMessage::Eof => {
                self.eof = true;
                if had {
                    DecoderStep::Drain
                } else {
                    DecoderStep::Finish
                }
            },
        }
    }

    /// Takes note that nothing came for a while: after the last packet the sound
    /// has ended once the queue is empty.
    pub fn idle(&self, shared: &mut SharedState, queue_is_empty: bool)
        ensures
            *final(shared) == (SharedState {
                audio_done: old(shared).audio_done || (self.eof && queue_is_empty),
                ..*old(shared)
            }),
    {
        if self.eof && queue_is_empty {
            shared.audio_done = true;
        }
    }
}

/// Reports that the audio decoder cannot be opened.
pub fn report_audio_decoder(shared: &mut SharedState, reason: &str)
    ensures
        final(shared).error matches Some(e) && e@ == "décodeur audio indisponible : "@ + reason@,
        *final(shared) == (SharedState { error: final(shared).error, ..*old(shared) }),
{
    let mut text = to_chars("décodeur audio indisponible : ");
    push_text(&mut text, reason);
    shared.set_error(from_chars(&text));
}

/// When a decoded sound is heard; negative where it does not say it.
pub open spec fn sound_pts(timestamp: Option<i64>, pts: Option<i64>, base: Rational) -> i64 {
    match timestamp {
        Some(t) => timestamp_to_us(t, base),
        None => match pts {
            Some(p) => timestamp_to_us(p, base),
            None => (-1) as i64,
        },
    }
}

/// When a decoded sound is heard; negative where it does not say it.
pub fn sound_time(timestamp: Option<i64>, pts: Option<i64>, base: Rational) -> (r: i64)
    ensures
        r == sound_pts(timestamp, pts, base),
{
    match timestamp {
        Some(t) => ts_to_us(t, base),
        None => match pts {
            Some(p) => ts_to_us(p, base),
            None => -1,
        },
    }
}

/// What to do with filtered sound.
#[derive(Debug, Clone, Copy, PartialEq, Eq, Structural)]
pub enum PushStep {
    /// Give it up.
    Discard,
    /// Wait for room in the queue.
    Wait,
    /// Put it into the queue.
    Push,
}

/// What to do with filtered sound of a generation, while `current` is played.
pub open spec fn push_step(
    stop: bool,
    current: u64,
    generation: u64,
    sample_count: int,
    has_room: bool,
) -> PushStep {
    if sample_count == 0 || stop || generation != current {
        PushStep::Discard
    } else if has_room {
        PushStep::Push
    } else {
        PushStep::Wait
    }
}

/// What to do with filtered sound: it waits for room, and is given up where the
/// session ends or someone seeks meanwhile.
pub fn filter_and_push(
    shared: &SharedState,
    generation: u64,
    sample_count: usize,
    has_room: bool,
) -> (step: PushStep)
    ensures
        step == (if sample_count == 0 || shared.stop || generation != shared.generation {
            PushStep::Discard
        } else if has_room {
            PushStep::Push
        } else {
            PushStep::Wait
        }),
        step == push_step(
            shared.stop,
            shared.generation,
            generation,
            sample_count as int,
            has_room,
        ),
{
    if sample_count == 0 || shared.should_stop() || generation != shared.current_generation() {
        PushStep::Discard
    } else if has_room {
        PushStep::Push
    } else {
        PushStep::Wait
    }
}

// ---- Laws ------------------------------------------------------------------

/// The end is reached once it was told, and no longer after a flush, a new stream or a
/// packet of the present; a packet from before a seek changes nothing.
pub proof fn law_end_of_sound(d: AudioDecoder, current: u64, generation: u64)
    ensures
        d.after(current, DecoderMessage::Eof).eof,
        !d.after(current, DecoderMessage::Flush).eof,
        !d.after(current, DecoderMessage::Packet { generation: current }).eof,
        generation != current ==> d.after(current, DecoderMessage::Packet { generation }) == d,
        d.after(current, DecoderMessage::Reconfigure { opened: true }).has_decoder,
        d.after(current, DecoderMessage::Reconfigure { opened: false }) == d,
        d.after(current, DecoderMessage::Eof).has_decoder == d.has_decoder,
        d.after(current, DecoderMessage::Flush).has_decoder == d.has_decoder,
{
}

/// Sound of the present goes into the queue as soon as there is room, and waits till
/// then; sound from before a seek, and any where the session ends, is given up.
pub proof fn law_sound_waits_for_room(current: u64, generation: u64, n: int, has_room: bool)
    requires
        n > 0,
    ensures
        push_step(false, current, current, n, true) == PushStep::Push,
        push_step(false, current, current, n, false) == PushStep::Wait,
        generation != current ==> push_step(false, current, generation, n, has_room)
            == PushStep::Discard,
        push_step(true, current, generation, n, has_room) == PushStep::Discard,
        push_step(false, current, current, 0, has_room) == PushStep::Discard,
{
}

/// A sound is heard at its own time, or else at that of its packet; where neither is
/// known it says so.
pub proof fn law_sound_has_a_time(t: i64, other: Option<i64>, base: Rational)
    ensures
        sound_pts(Some(t), other, base) == timestamp_to_us(t, base),
        sound_pts(None, Some(t), base) == timestamp_to_us(t, base),
        sound_pts(None, None, base) < 0,
{
}

} // verus!
