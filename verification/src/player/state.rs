//! The state of a session, which the threads that play it share.

use super::clock::{PlaybackClock, clamp_speed, clamped_speed, saturate, saturated};
use crate::number::{decimal, write_decimal};
use crate::subtitles::bitmap::{BitmapSubtitle, BitmapSubtitleTrack};
use crate::subtitles::markup::CueStyle;
use crate::subtitles::track::{Cue, SubtitleTrack, active_style, active_texts, is_sorted};
use crate::text::{from_chars, join, push_all, push_text, to_chars};
use vstd::prelude::*;

verus! {

/// A track of the medium, audio or subtitles.
#[derive(Debug)]
pub struct TrackInfo {
    /// The place of the stream in the container.
    pub stream_index: usize,
    pub language: Option<String>,
    pub title: Option<String>,
    /// The name of the codec.
    pub codec: String,
}

/// A chapter of the medium.
#[derive(Debug)]
pub struct ChapterInfo {
    /// Where it begins (microseconds).
    pub start_us: i64,
    pub title: String,
}

/// The text of a string that may be missing.
pub open spec fn opt_text(s: Option<String>) -> Option<Seq<char>> {
    match s {
        Some(t) => Some(t@),
        None => None,
    }
}

/// What a track says.
#[verifier::ext_equal]
pub struct Track {
    pub stream_index: usize,
    pub language: Option<Seq<char>>,
    pub title: Option<Seq<char>>,
    pub codec: Seq<char>,
}

impl View for TrackInfo {
    type V = Track;

    open spec fn view(&self) -> Track {
        Track {
            stream_index: self.stream_index,
            language: opt_text(self.language),
            title: opt_text(self.title),
            codec: self.codec@,
        }
    }
}

/// What the menus call a track.
pub open spec fn track_label(t: Track, position: int) -> Seq<char> {
    let head = "Piste "@ + decimal((position + 1) as nat);
    let lang = match t.language {
        Some(l) => " ["@ + l + "]"@,
        None => seq![],
    };
    let title = match t.title {
        Some(s) => " — "@ + s,
        None => seq![],
    };
    head + lang + title + " ("@ + t.codec + ")"@
}

impl TrackInfo {
    /// What the menus call the track at this place of the list.
    pub fn label(&self, position: usize) -> (r: String)
        requires
            position < usize::MAX,
        ensures
            r@ == track_label(self@, position as int),
    {
        let mut out = to_chars("Piste ");
        let number = write_decimal(position as u64 + 1);
        push_all(&mut out, &number);
        let ghost head = out@;
        if let Some(l) = &self.language {
            push_text(&mut out, " [");
            push_text(&mut out, l.as_str());
            push_text(&mut out, "]");
        }
        let ghost lang: Seq<char> = match &self.language {
            Some(l) => " ["@ + l@ + "]"@,
            None => seq![],
        };
        assert(out@ =~= head + lang);
        if let Some(t) = &self.title {
            push_text(&mut out, " — ");
            push_text(&mut out, t.as_str());
        }
        let ghost title: Seq<char> = match &self.title {
            Some(t) => " — "@ + t@,
            None => seq![],
        };
        assert(out@ =~= head + lang + title);
        push_text(&mut out, " (");
        push_text(&mut out, self.codec.as_str());
        push_text(&mut out, ")");
        assert(out@ =~= head + lang + title + " ("@ + self.codec@ + ")"@);
        from_chars(&out)
    }
}

/// The state of a session.
#[derive(Debug)]
pub struct SharedState {
    /// The master clock.
    pub clock: PlaybackClock,
    /// The length of the medium, zero where it is unknown.
    pub duration_us: i64,
    /// The speed, in thousandths.
    pub speed_milli: u32,
    /// The volume, in thousandths (up to 1250).
    pub volume_milli: u32,
    pub muted: bool,
    /// Whether the session has to end.
    pub stop: bool,
    /// The number of seeks: what was made before the last one is stale.
    pub generation: u64,
    /// Whether everything was read.
    pub demux_eof: bool,
    /// Whether there is no more picture to show.
    pub video_done: bool,
    /// Whether there is no more sound to play.
    pub audio_done: bool,
    /// How much later subtitles are shown.
    pub subtitle_delay_us: i64,
    /// How much later the sound is heard.
    pub audio_delay_us: i64,
    /// Subtitles from a file, which come first.
    pub external_subtitles: Option<SubtitleTrack>,
    /// Subtitles from the medium.
    pub embedded_subtitles: SubtitleTrack,
    /// Image subtitles from the medium.
    pub bitmap_subtitles: BitmapSubtitleTrack,
    pub audio_tracks: Vec<TrackInfo>,
    pub subtitle_tracks: Vec<TrackInfo>,
    pub chapters: Vec<ChapterInfo>,
    /// What is known of the medium, line by line.
    pub media_info: String,
    /// How long a picture is shown, zero where it is unknown.
    pub frame_duration_us: i64,
    /// The error to show.
    pub error: Option<String>,
    pub has_audio: bool,
    pub has_video: bool,
    /// The gains of the equaliser, in hundredths of a decibel.
    pub equalizer: [i32; 10],
    /// Counts the changes of the equaliser and of the normalisation.
    pub eq_generation: u64,
    /// Whether the loudness is normalised.
    pub normalize: bool,
    /// Whether the hardware may decode.
    pub hwaccel_enabled: bool,
    /// Quarter turns to the right.
    pub rotation: u8,
    /// Adjustments of the picture, in thousandths.
    pub brightness_milli: i32,
    pub contrast_milli: i32,
    pub saturation_milli: i32,
    pub gamma_milli: i32,
    pub sharpen_milli: i32,
    pub denoise_milli: i32,
    /// What was presented, for diagnosis.
    pub frames_presented: u64,
    pub frames_dropped: u64,
    pub last_av_delta_us: i64,
}

/// The greatest gain of the equaliser, in hundredths of a decibel.
pub const EQ_LIMIT: i32 = 1200;

/// A gain brought into its range.
pub open spec fn clamped_gain(g: i32) -> i32 {
    if g > EQ_LIMIT {
        EQ_LIMIT
    } else if g < -EQ_LIMIT {
        (-EQ_LIMIT) as i32
    } else {
        g
    }
}

/// The number after `n`; the greatest one is followed by zero.
pub open spec fn after_count(n: u64) -> u64 {
    if n == u64::MAX {
        0
    } else {
        (n + 1) as u64
    }
}

/// The text shown at time `t` by a track, if any.
pub open spec fn shown_text(cues: Seq<Cue>, t: int) -> Option<Seq<char>> {
    let texts = active_texts(cues, t);
    if texts.len() > 0 {
        Some(join(texts, "\n"@))
    } else {
        None
    }
}

/// The time in a subtitle track at a position, with the user's delay.
pub open spec fn subtitle_moment(position: i64, delay: i64) -> i64 {
    saturated(position - delay)
}

/// The volume that is heard.
pub open spec fn heard_volume(muted: bool, milli: u32) -> u32 {
    if muted {
        0
    } else {
        milli
    }
}

/// Whether everything was played: all was read, and of a picture and a sound each is
/// done that is there.
pub open spec fn is_finished(
    eof: bool,
    has_video: bool,
    video_done: bool,
    has_audio: bool,
    audio_done: bool,
) -> bool {
    eof && (!has_video || video_done) && (!has_audio || audio_done)
}

impl SharedState {
    /// Whether the subtitle tracks are sorted.
    pub open spec fn wf(&self) -> bool {
        &&& is_sorted(self.embedded_subtitles@)
        &&& self.external_subtitles matches Some(t) ==> is_sorted(t@)
    }

    /// Whether all but the clock is as it is when a session begins.
    pub open spec fn is_new(&self) -> bool {
        &&& self.duration_us == 0
        &&& self.speed_milli == 1000
        &&& self.volume_milli == 800
        &&& !self.muted && !self.stop
        &&& self.generation == 0
        &&& !self.demux_eof && !self.video_done && !self.audio_done
        &&& self.subtitle_delay_us == 0 && self.audio_delay_us == 0
        &&& self.external_subtitles is None
        &&& self.embedded_subtitles@ == Seq::<Cue>::empty()
        &&& self.bitmap_subtitles@ == Seq::<BitmapSubtitle>::empty()
        &&& self.audio_tracks@.len() == 0 && self.subtitle_tracks@.len() == 0 && self.chapters@.len() == 0
        &&& self.media_info@.len() == 0
        &&& self.frame_duration_us == 0
        &&& self.error is None
        &&& !self.has_audio && !self.has_video
        &&& forall|i: int| 0 <= i < 10 ==> self.equalizer@[i] == 0
        &&& self.eq_generation == 0 && !self.normalize
        &&& self.hwaccel_enabled
        &&& self.rotation == 0
        &&& self.brightness_milli == 0 && self.contrast_milli == 1000 && self.saturation_milli == 1000
        &&& self.gamma_milli == 1000 && self.sharpen_milli == 0 && self.denoise_milli == 0
        &&& self.frames_presented == 0 && self.frames_dropped == 0 && self.last_av_delta_us == 0
    }

    /// The cues that are shown: those of the file, where there is one.
    pub open spec fn shown_cues(&self) -> Seq<Cue> {
        match self.external_subtitles {
            Some(t) => t@,
            None => self.embedded_subtitles@,
        }
    }

    /// The state of a session that begins at real time `at`.
    pub fn new(at: u64) -> (s: SharedState)
        ensures
            s.wf(),
            s.clock == (PlaybackClock {
                anchor_media_us: 0,
                anchor_at_us: at,
                speed_milli: 1000,
                paused: true,
                started: false,
            }),
            s.is_new(),
    {
        SharedState {
            clock: PlaybackClock::new(at),
            duration_us: 0,
            speed_milli: 1000,
            volume_milli: 800,
            muted: false,
            stop: false,
            generation: 0,
            demux_eof: false,
            video_done: false,
            audio_done: false,
            subtitle_delay_us: 0,
            audio_delay_us: 0,
            external_subtitles: None,
            embedded_subtitles: SubtitleTrack::default(),
            bitmap_subtitles: BitmapSubtitleTrack::default(),
            audio_tracks: Vec::new(),
            subtitle_tracks: Vec::new(),
            chapters: Vec::new(),
            media_info: String::new(),
            frame_duration_us: 0,
            error: None,
            has_audio: false,
            has_video: false,
            equalizer: [0, 0, 0, 0, 0, 0, 0, 0, 0, 0],
            eq_generation: 0,
            normalize: false,
            hwaccel_enabled: true,
            rotation: 0,
            brightness_milli: 0,
            contrast_milli: 1000,
            saturation_milli: 1000,
            gamma_milli: 1000,
            sharpen_milli: 0,
            denoise_milli: 0,
            frames_presented: 0,
            frames_dropped: 0,
            last_av_delta_us: 0,
        }
    }

    /// The speed, in thousandths.
    pub fn speed(&self) -> (r: u32)
        ensures
            r == self.speed_milli,
    {
        self.speed_milli
    }

    /// The gains of the equaliser.
    pub fn equalizer_gains(&self) -> (r: [i32; 10])
        ensures
            r == self.equalizer,
    {
        self.equalizer
    }

    /// Replaces the gains of the equaliser, which changes the audio graph.
    pub fn set_equalizer(&mut self, gains: [i32; 10])
        ensures
            *final(self) == (SharedState {
                equalizer: gains,
                eq_generation: after_count(old(self).eq_generation),
                ..*old(self)
            }),
    {
        self.equalizer = gains;
        self.eq_generation = next_count(self.eq_generation);
    }

    /// Whether the loudness is normalised.
    pub fn normalize_enabled(&self) -> (r: bool)
        ensures
            r == self.normalize,
    {
        self.normalize
    }

    /// Normalises the loudness or not, which changes the audio graph.
    pub fn set_normalize(&mut self, on: bool)
        ensures
            *final(self) == (SharedState {
                normalize: on,
                eq_generation: after_count(old(self).eq_generation),
                ..*old(self)
            }),
    {
        self.normalize = on;
        self.eq_generation = next_count(self.eq_generation);
    }

    /// Sets the gain of a band, brought into its range, which changes the audio
    /// graph. There are ten bands.
    pub fn set_equalizer_band(&mut self, band: usize, gain: i32)
        ensures
            band >= 10 ==> *final(self) == *old(self),
            band < 10 ==> final(self).equalizer@ == old(self).equalizer@.update(
                band as int,
                clamped_gain(gain),
            ) && *final(self) == (SharedState {
                equalizer: final(self).equalizer,
                eq_generation: after_count(old(self).eq_generation),
                ..*old(self)
            }),
    {
        if band >= 10 {
            return;
        }
        let value: i32 = if gain > EQ_LIMIT {
            EQ_LIMIT
        } else if gain < -EQ_LIMIT {
            -EQ_LIMIT
        } else {
            gain
        };
        let mut gains: [i32; 10] = self.equalizer;
        gains[band] = value;
        self.equalizer = gains;
        self.eq_generation = next_count(self.eq_generation);
    }

    /// Sets the speed, brought into its range.
    pub fn set_speed(&mut self, speed_milli: u32, at: u64)
        ensures
            *final(self) == (SharedState {
                speed_milli: clamped_speed(speed_milli),
                clock: PlaybackClock {
                    speed_milli: clamped_speed(speed_milli),
                    ..old(self).clock.anchored(at)
                },
                ..*old(self)
            }),
    {
        let milli: u32 = clamp_speed(speed_milli);
        self.speed_milli = milli;
        self.clock.set_speed(milli, at);
    }

    /// The volume that is heard, in thousandths.
    pub fn effective_volume(&self) -> (r: u32)
        ensures
            r == (if self.muted {
                0
            } else {
                self.volume_milli
            }),
            r == heard_volume(self.muted, self.volume_milli),
    {
        if self.muted {
            0
        } else {
            self.volume_milli
        }
    }

    /// The number of seeks.
    pub fn current_generation(&self) -> (r: u64)
        ensures
            r == self.generation,
    {
        self.generation
    }

    /// Whether the session has to end.
    pub fn should_stop(&self) -> (r: bool)
        ensures
            r == self.stop,
    {
        self.stop
    }

    /// Reports an error.
    pub fn set_error(&mut self, message: String)
        ensures
            *final(self) == (SharedState { error: Some(message), ..*old(self) }),
    {
        self.error = Some(message);
    }

    /// The subtitle to show at a position, with the user's delay.
    pub fn subtitle_at(&self, position_us: i64) -> (r: Option<String>)
        requires
            self.wf(),
        ensures
            opt_text(r) == shown_text(
                self.shown_cues(),
                saturated(position_us - self.subtitle_delay_us) as int,
            ),
            opt_text(r) == shown_text(
                self.shown_cues(),
                subtitle_moment(position_us, self.subtitle_delay_us) as int,
            ),
    {
        let t: i64 = saturate(position_us as i128 - self.subtitle_delay_us as i128);
        match &self.external_subtitles {
            Some(track) => track.query(t),
            None => self.embedded_subtitles.query(t),
        }
    }

    /// The style of the subtitle to show at a position.
    pub fn subtitle_style_at(&self, position_us: i64) -> (r: CueStyle)
        requires
            self.wf(),
        ensures
            r == ({
                let t = saturated(position_us - self.subtitle_delay_us) as int;
                active_style(self.shown_cues(), t)
            }),
            r == active_style(
                self.shown_cues(),
                subtitle_moment(position_us, self.subtitle_delay_us) as int,
            ),
    {
        let t: i64 = saturate(position_us as i128 - self.subtitle_delay_us as i128);
        match &self.external_subtitles {
            Some(track) => track.query_style(t),
            None => self.embedded_subtitles.query_style(t),
        }
    }

    /// Whether everything was played: all was read, and neither a picture nor a
    /// sound is left.
    pub fn playback_finished(&self) -> (r: bool)
        ensures
            r == (self.demux_eof && (!self.has_video || self.video_done) && (!self.has_audio
                || self.audio_done)),
            r == is_finished(
                self.demux_eof,
                self.has_video,
                self.video_done,
                self.has_audio,
                self.audio_done,
            ),
    {
        if !self.demux_eof {
            return false;
        }
        let video_ok: bool = !self.has_video || self.video_done;
        let audio_ok: bool = !self.has_audio || self.audio_done;
        video_ok && audio_ok
    }
}

/// The number after `n`; the greatest one is followed by zero.
pub fn next_count(n: u64) -> (r: u64)
    ensures
        r == after_count(n),
{
    if n == u64::MAX {
        0
    } else {
        n + 1
    }
}

// ---- Laws ------------------------------------------------------------------

/// A gain stays in its range of twelve decibels up and down, and one that is there is
/// kept.
pub proof fn law_gain_stays_in_range(g: i32)
    ensures
        -1200 <= clamped_gain(g) <= 1200,
        -1200 <= g <= 1200 ==> clamped_gain(g) == g,
        g > 1200 ==> clamped_gain(g) == 1200,
        g < -1200 ==> clamped_gain(g) == -1200,
{
}

/// Counting goes up by one, and a count is never followed by itself.
pub proof fn law_counts_go_up(n: u64)
    ensures
        n < u64::MAX ==> after_count(n) == n + 1,
        after_count(n) != n,
{
}

/// What is shown of a track: nothing where no cue is shown, the text of a cue that is
/// shown alone, and below it that of the next.
pub proof fn law_shown_text_is_that_of_the_cues(a: Cue, b: Cue, t: int)
    requires
        a.start <= t < a.end,
    ensures
        shown_text(seq![], t) is None,
        shown_text(seq![a], t) == Some(a.text),
        b.start <= t < b.end ==> shown_text(seq![a, b], t) == Some(
            a.text + seq!['\n'] + b.text,
        ),
        !(b.start <= t < b.end) ==> shown_text(seq![a, b], t) == Some(a.text),
{
    reveal_strlit("\n");
    assert("\n"@ == seq!['\n']);
    let none = Seq::<Cue>::empty();
    assert(seq![a].drop_last() == none);
    assert(seq![a, b].drop_last() == seq![a]);
    assert(active_texts(none, t) == Seq::<Seq<char>>::empty());
    assert(active_texts(seq![a], t) == seq![a.text]);
    if b.start <= t < b.end {
        assert(active_texts(seq![a, b], t) == seq![a.text, b.text]);
        assert(seq![a.text, b.text].drop_last() == seq![a.text]);
        assert(join(seq![a.text], "\n"@) == a.text);
    }
}

/// A track is called by its number, the first being one, by its language and title
/// where they are known, and by its codec.
pub proof fn law_track_is_called_by_its_number(t: Track, position: int)
    requires
        0 <= position,
    ensures
        t.language is None && t.title is None ==> track_label(t, position) == "Piste "@ + decimal(
            (position + 1) as nat,
        ) + " ("@ + t.codec + ")"@,
        t.language is Some && t.title is None ==> track_label(t, position) == "Piste "@ + decimal(
            (position + 1) as nat,
        ) + " ["@ + t.language->0 + "]"@ + " ("@ + t.codec + ")"@,
{
    let none = Seq::<char>::empty();
    let head = "Piste "@ + decimal((position + 1) as nat);
    assert(head + none + none == head);
    if let Some(l) = t.language {
        assert(head + (" ["@ + l + "]"@) + none == head + " ["@ + l + "]"@);
    }
}

/// A delay shows the subtitles that much later: what is shown at a position without it
/// is shown behind it with it.
pub proof fn law_delay_shows_subtitles_later(cues: Seq<Cue>, position: i64, delay: i64, later: i64)
    requires
        later == position + delay,
    ensures
        subtitle_moment(later, delay) == position,
        subtitle_moment(position, 0) == position,
        shown_text(cues, subtitle_moment(later, delay) as int) == shown_text(
            cues,
            subtitle_moment(position, 0) as int,
        ),
{
}

/// Nothing is heard while it is muted, and else the volume that is set.
pub proof fn law_muted_sound_is_silent(milli: u32)
    ensures
        heard_volume(true, milli) == 0,
        heard_volume(false, milli) == milli,
{
}

/// The playback is finished once everything was read and each of picture and sound that
/// is there is done; what is not there is not waited for.
pub proof fn law_playback_ends_with_the_last_of_it(
    has_video: bool,
    video: bool,
    has_audio: bool,
    audio: bool,
)
    ensures
        !is_finished(false, has_video, video, has_audio, audio),
        is_finished(true, true, video, true, audio) <==> video && audio,
        is_finished(true, true, video, false, audio) <==> video,
        is_finished(true, false, video, true, audio) <==> audio,
        is_finished(true, false, video, false, audio),
{
}

} // verus!
