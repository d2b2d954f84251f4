//! The demuxer: which command, packet or seek comes next, and what it does.

use super::streams::Selection;
use super::time::DemuxCommand;
use super::video::{DecoderMessage, DecoderStep, decoder_step_spec};
use crate::player::presenter::{Moment, Presenter, PresenterAction};
use crate::player::state::{SharedState, after_count, next_count};
use crate::streaming::{
    DemuxOptions, classify, demux_options, is_url_text, kind_of, normalize_source, normalized,
    options_for,
};
use crate::subtitles::bitmap::BitmapSubtitle;
use crate::subtitles::track::{Cue, SubtitleTrack};
use crate::text::{from_chars, push_text, to_chars};
use crate::ytdlp::{is_page, should_resolve};
use vstd::prelude::*;

verus! {

/// How long to wait for a command once everything was read, in milliseconds.
pub const COMMAND_WAIT_MS: u64 = 100;

/// How long to try to hand a packet over, in milliseconds.
pub const SEND_WAIT_MS: u64 = 50;

/// The demuxer.
#[derive(Debug, Clone, Copy, PartialEq, Eq, Structural)]
pub struct DemuxState {
    pub video_stream: Option<usize>,
    pub audio_stream: Option<usize>,
    pub subtitle_stream: Option<usize>,
    /// Whether the subtitle stream can be decoded.
    pub subtitle_decoder: bool,
    /// Where to go next.
    pub seek_requested: Option<i64>,
    /// Whether everything was read.
    pub eof: bool,
    /// Whether the subtitle stream was chosen without its decoder being opened.
    pub subtitles_changed: bool,
}

/// What the demuxer does next.
#[derive(Debug, Clone, Copy, PartialEq, Eq, Structural)]
pub enum DemuxStep {
    /// End.
    Stop,
    /// Choose this subtitle stream, now that the container can be asked.
    SelectSubtitles(Option<usize>),
    /// Go to this position.
    Seek(i64),
    /// Wait for a command.
    AwaitCommand,
    /// Read a packet.
    ReadPacket,
}

/// What a command asks of the container and of the decoders.
#[derive(Debug, Clone, Copy, PartialEq, Eq, Structural)]
pub enum CommandEffect {
    Nothing,
    /// Drop the sound that waits, and decode this stream.
    SwitchAudio(usize),
    /// Open a decoder for this subtitle stream.
    OpenSubtitles(usize),
}

/// Where a packet goes.
#[derive(Debug, Clone, Copy, PartialEq, Eq, Structural)]
pub enum Route {
    Video,
    Audio,
    Subtitle,
    Nowhere,
}

/// What the decoders are told after a seek.
#[derive(Debug, Clone, Copy, PartialEq, Eq, Structural)]
pub struct SeekEffect {
    /// Whether they forget what they hold.
    pub flush: bool,
    /// The stream that the video decoder is configured for.
    pub video: Option<usize>,
    /// The stream that the audio decoder is configured for.
    pub audio: Option<usize>,
}

// ---- Opening ---------------------------------------------------------------

/// The source that is opened: a page is replaced by the stream that it leads
/// to, where that is known.
pub open spec fn opened_source(
    source: Seq<char>,
    is_bdmv_dir: bool,
    resolved: Option<Seq<char>>,
) -> Seq<char> {
    let s = normalized(source, is_bdmv_dir);
    match resolved {
        Some(r) if is_page(s) => r,
        _ => s,
    }
}

/// Whether the source has to be resolved before it is opened, and as what.
pub fn page_to_resolve(source: &str, is_bdmv_dir: bool) -> (r: Option<String>)
    ensures
        r matches Some(page) ==> is_page(page@) && page@ == normalized(source@, is_bdmv_dir),
        r is None ==> !is_page(normalized(source@, is_bdmv_dir)),
{
    let s = normalize_source(source, is_bdmv_dir);
    if should_resolve(s.as_str()) {
        Some(s)
    } else {
        None
    }
}

/// The source to open, and the options to open it with. `resolved` is the
/// stream that a page leads to, where that is known.
pub fn source_to_open(source: &str, is_bdmv_dir: bool, resolved: Option<&str>) -> (r: (
    String,
    DemuxOptions,
))
    ensures
        r.0@ == opened_source(
            source@,
            is_bdmv_dir,
            match resolved {
                Some(u) => Some(u@),
                None => None,
            },
        ),
        r.1@ == options_for(kind_of(r.0@)),
{
    let s = normalize_source(source, is_bdmv_dir);
    let chosen = match resolved {
        Some(u) => if should_resolve(s.as_str()) {
            u.to_owned()
        } else {
            s
        },
        None => s,
    };
    let options = demux_options(classify(chosen.as_str()));
    (chosen, options)
}

/// The length of a medium, zero where the container does not know it.
pub fn known_duration(duration: i64) -> (r: i64)
    ensures
        r == (if duration > 0 {
            duration
        } else {
            0
        }),
{
    if duration > 0 {
        duration
    } else {
        0
    }
}

// ---- Steps -----------------------------------------------------------------

impl DemuxState {
    /// What the demuxer does next.
    pub open spec fn step(self, stop: bool) -> DemuxStep {
        if stop {
            DemuxStep::Stop
        } else if self.subtitles_changed {
            DemuxStep::SelectSubtitles(self.subtitle_stream)
        } else {
            match self.seek_requested {
                Some(target) => DemuxStep::Seek(target),
                None => if self.eof {
                    DemuxStep::AwaitCommand
                } else {
                    DemuxStep::ReadPacket
                },
            }
        }
    }

    /// The demuxer of a medium whose streams are known.
    pub fn new(streams: Selection, start_at_us: Option<i64>) -> (st: DemuxState)
        ensures
            st == (DemuxState {
                video_stream: streams.video,
                audio_stream: streams.audio,
                subtitle_stream: None,
                subtitle_decoder: false,
                seek_requested: start_at_us,
                eof: false,
                subtitles_changed: false,
            }),
    {
        DemuxState {
            video_stream: streams.video,
            audio_stream: streams.audio,
            subtitle_stream: None,
            subtitle_decoder: false,
            seek_requested: start_at_us,
            eof: false,
            subtitles_changed: false,
        }
    }

    /// What the demuxer does next, when it has taken the commands that waited.
    /// A seek that is done is no longer asked for, nor is a choice of subtitles.
    pub fn next_step(&mut self, stop: bool) -> (step: DemuxStep)
        ensures
            step == old(self).step(stop),
            *final(self) == (if step is SelectSubtitles {
                DemuxState { subtitles_changed: false, ..*old(self) }
            } else if step is Seek {
                DemuxState { seek_requested: None, eof: false, ..*old(self) }
            } else {
                *old(self)
            }),
    {
        if stop {
            return DemuxStep::Stop;
        }
        if self.subtitles_changed {
            self.subtitles_changed = false;
            return DemuxStep::SelectSubtitles(self.subtitle_stream);
        }
        match self.seek_requested {
            Some(target) => {
                self.seek_requested = None;
                self.eof = false;
                DemuxStep::Seek(target)
            },
            None => if self.eof {
                DemuxStep::AwaitCommand
            } else {
                DemuxStep::ReadPacket
            },
        }
    }

    /// Where a packet of a stream goes.
    pub open spec fn route(self, index: usize) -> Route {
        if self.video_stream == Some(index) {
            Route::Video
        } else if self.audio_stream == Some(index) {
            Route::Audio
        } else if self.subtitle_stream == Some(index) {
            Route::Subtitle
        } else {
            Route::Nowhere
        }
    }

    /// Where a packet of a stream goes.
    pub fn route_packet(&self, index: usize) -> (r: Route)
        ensures
            r == self.route(index),
    {
        if self.video_stream == Some(index) {
            Route::Video
        } else if self.audio_stream == Some(index) {
            Route::Audio
        } else if self.subtitle_stream == Some(index) {
            Route::Subtitle
        } else {
            Route::Nowhere
        }
    }

    /// What a command asks for.
    pub open spec fn effect(self, cmd: DemuxCommand) -> CommandEffect {
        match cmd {
            DemuxCommand::Seek(_) => CommandEffect::Nothing,
            DemuxCommand::SelectAudioTrack(i) => if self.audio_stream == Some(i) {
                CommandEffect::Nothing
            } else {
                CommandEffect::SwitchAudio(i)
            },
            DemuxCommand::SelectSubtitleTrack(Some(i)) => CommandEffect::OpenSubtitles(i),
            DemuxCommand::SelectSubtitleTrack(None) => CommandEffect::Nothing,
        }
    }

    /// The demuxer after a command. Of several seeks only the last one counts.
    pub open spec fn commanded(self, cmd: DemuxCommand) -> DemuxState {
        match cmd {
            DemuxCommand::Seek(t) => DemuxState { seek_requested: Some(t), ..self },
            DemuxCommand::SelectAudioTrack(i) => DemuxState { audio_stream: Some(i), ..self },
            DemuxCommand::SelectSubtitleTrack(s) => DemuxState {
                subtitle_stream: s,
                subtitle_decoder: false,
                subtitles_changed: false,
                ..self
            },
        }
    }

    /// Takes a command. Choosing a subtitle track forgets the subtitles of the
    /// one before.
    pub fn handle_command(&mut self, shared: &mut SharedState, cmd: DemuxCommand) -> (effect:
        CommandEffect)
        ensures
            *final(self) == old(self).commanded(cmd),
            effect == old(self).effect(cmd),
            cmd is SelectSubtitleTrack ==> final(shared).embedded_subtitles@ == Seq::<Cue>::empty()
                && final(shared).bitmap_subtitles@ == Seq::<BitmapSubtitle>::empty(),
            !(cmd is SelectSubtitleTrack) ==> *final(shared) == *old(shared),
            *final(shared) == (SharedState {
                embedded_subtitles: final(shared).embedded_subtitles,
                bitmap_subtitles: final(shared).bitmap_subtitles,
                ..*old(shared)
            }),
            old(shared).wf() ==> final(shared).wf(),
    {
        match cmd {
            DemuxCommand::Seek(t) => {
                self.seek_requested = Some(t);
                CommandEffect::Nothing
            },
            DemuxCommand::SelectAudioTrack(i) => {
                let same: bool = self.audio_stream == Some(i);
                self.audio_stream = Some(i);
                if same {
                    CommandEffect::Nothing
                } else {
                    CommandEffect::SwitchAudio(i)
                }
            },
            DemuxCommand::SelectSubtitleTrack(s) => {
                self.subtitle_stream = s;
                self.subtitle_decoder = false;
                self.subtitles_changed = false;
                shared.embedded_subtitles = SubtitleTrack::default();
                shared.bitmap_subtitles.clear();
                match s {
                    Some(i) => CommandEffect::OpenSubtitles(i),
                    None => CommandEffect::Nothing,
                }
            },
        }
    }

    /// Takes note of whether the decoder of the subtitle stream opened.
    pub fn subtitles_opened(&mut self, opened: bool)
        ensures
            *final(self) == (DemuxState { subtitle_decoder: opened, ..*old(self) }),
    {
        self.subtitle_decoder = opened;
    }

    /// The demuxer after a command that came while it could not hand a packet
    /// over. A new audio track is configured by seeking on the spot, and a new
    /// subtitle track as soon as the packet is gone.
    pub open spec fn commanded_inline(self, cmd: DemuxCommand, position_us: i64) -> DemuxState {
        match cmd {
            DemuxCommand::SelectAudioTrack(i) => DemuxState {
                audio_stream: Some(i),
                seek_requested: Some(position_us),
                ..self
            },
            DemuxCommand::SelectSubtitleTrack(s) => DemuxState {
                subtitle_stream: s,
                subtitle_decoder: false,
                subtitles_changed: true,
                ..self
            },
            DemuxCommand::Seek(t) => DemuxState { seek_requested: Some(t), ..self },
        }
    }

    /// Takes a command while a packet cannot be handed over, and says whether
    /// the packet is given up: it is stale after a seek. Where an audio track
    /// is chosen, the sound that waits has to be dropped.
    pub fn apply_track_command_inline(&mut self, cmd: DemuxCommand, position_us: i64) -> (give_up:
        bool)
        ensures
            *final(self) == old(self).commanded_inline(cmd, position_us),
            give_up == (cmd is Seek),
    {
        match cmd {
            DemuxCommand::SelectAudioTrack(i) => {
                self.audio_stream = Some(i);
                self.seek_requested = Some(position_us);
                false
            },
            DemuxCommand::SelectSubtitleTrack(s) => {
                self.subtitle_stream = s;
                self.subtitle_decoder = false;
                self.subtitles_changed = true;
                false
            },
            DemuxCommand::Seek(t) => {
                self.seek_requested = Some(t);
                true
            },
        }
    }

    /// Takes note that everything was read.
    pub fn reached_end(&mut self, shared: &mut SharedState)
        ensures
            *final(self) == (DemuxState { eof: true, ..*old(self) }),
            *final(shared) == (SharedState { demux_eof: true, ..*old(shared) }),
    {
        self.eof = true;
        shared.demux_eof = true;
    }

    /// What the decoders are told after a seek.
    pub open spec fn seek_effect(self, success: bool) -> SeekEffect {
        if success {
            SeekEffect { flush: true, video: self.video_stream, audio: self.audio_stream }
        } else {
            SeekEffect { flush: false, video: None, audio: None }
        }
    }

    /// Takes note of whether the container could be moved. Where it could, all
    /// is to be played again from there; the decoders are configured anew, which
    /// covers a change of track meanwhile.
    pub fn finish_seek(&self, shared: &mut SharedState, target_us: i64, success: bool, at: u64) -> (
        effect: SeekEffect)
        ensures
            effect == self.seek_effect(success),
            !success ==> *final(shared) == *old(shared),
            success ==> final(shared).bitmap_subtitles@ == Seq::<BitmapSubtitle>::empty()
                && *final(shared) == (SharedState {
                demux_eof: false,
                video_done: false,
                audio_done: false,
                bitmap_subtitles: final(shared).bitmap_subtitles,
                clock: old(shared).clock.moved(target_us, at),
                ..*old(shared)
            }),
    {
        if !success {
            return SeekEffect { flush: false, video: None, audio: None };
        }
        shared.demux_eof = false;
        shared.video_done = false;
        shared.audio_done = false;
        shared.bitmap_subtitles.clear();
        shared.clock.set_position(target_us, at);
        SeekEffect { flush: true, video: self.video_stream, audio: self.audio_stream }
    }
}

/// A target brought into the medium.
pub open spec fn seek_target(target: i64, duration: i64) -> i64 {
    if target < 0 {
        0
    } else if duration > 0 && target > duration {
        duration
    } else {
        target
    }
}

/// Begins a seek: what is on its way becomes stale. Says where the container
/// has to be moved.
pub fn begin_seek(shared: &mut SharedState, target_us: i64) -> (target: i64)
    ensures
        target == seek_target(target_us, old(shared).duration_us),
        *final(shared) == (SharedState {
            generation: after_count(old(shared).generation),
            ..*old(shared)
        }),
{
    shared.generation = next_count(shared.generation);
    let duration: i64 = shared.duration_us;
    if target_us < 0 {
        0
    } else if duration > 0 && target_us > duration {
        duration
    } else {
        target_us
    }
}

/// The message about a medium that cannot be read.
pub open spec fn demux_error(reason: Seq<char>) -> Seq<char> {
    "erreur de lecture : "@ + reason
}

/// Ends a session whose medium cannot be read.
pub fn fail_demux(shared: &mut SharedState, reason: &str)
    ensures
        final(shared).error matches Some(e) && e@ == demux_error(reason@),
        *final(shared) == (SharedState {
            error: final(shared).error,
            demux_eof: true,
            video_done: true,
            audio_done: true,
            ..*old(shared)
        }),
{
    let mut text = to_chars("erreur de lecture : ");
    push_text(&mut text, reason);
    shared.set_error(from_chars(&text));
    shared.demux_eof = true;
    shared.video_done = true;
    shared.audio_done = true;
}

// ---- Laws ------------------------------------------------------------------

/// A seek lands in the medium, wherever it was aimed.
pub proof fn law_seek_stays_in_the_medium(target: i64, duration: i64)
    ensures
        seek_target(target, duration) >= 0,
        duration > 0 ==> seek_target(target, duration) <= duration,
        0 <= target && (duration <= 0 || target <= duration) ==> seek_target(target, duration)
            == target,
        0 < duration < target ==> seek_target(target, duration) == duration,
        target < 0 ==> seek_target(target, duration) == 0,
{
}

/// Of two seeks that come together only the last one is done.
pub proof fn law_last_seek_counts(st: DemuxState, a: i64, b: i64)
    ensures
        st.commanded(DemuxCommand::Seek(a)).commanded(DemuxCommand::Seek(b)) == st.commanded(
            DemuxCommand::Seek(b),
        ),
        !st.subtitles_changed ==> st.commanded(DemuxCommand::Seek(b)).step(false)
            == DemuxStep::Seek(b),
{
}

/// A subtitle track that is chosen while a packet waits is configured in full
/// before anything else is done, just as one that is chosen at any other time.
pub proof fn law_no_subtitle_choice_is_lost(st: DemuxState, s: Option<usize>, pos: i64)
    ensures
        st.commanded_inline(DemuxCommand::SelectSubtitleTrack(s), pos).step(false)
            == DemuxStep::SelectSubtitles(s),
        st.commanded_inline(DemuxCommand::SelectSubtitleTrack(s), pos).commanded(
            DemuxCommand::SelectSubtitleTrack(s),
        ) == st.commanded(DemuxCommand::SelectSubtitleTrack(s)),
{
}

/// Once a seek has begun, nothing from before it is decoded or shown.
pub proof fn law_seek_makes_stale(
    generation: u64,
    has_decoder: bool,
    p: Presenter,
    pts_us: i64,
    m: Moment,
)
    requires
        m.generation == after_count(generation),
    ensures
        decoder_step_spec(
            has_decoder,
            after_count(generation),
            DecoderMessage::Packet { generation },
        ) == DecoderStep::Skip,
        p.verdict(pts_us, generation, m) == PresenterAction::Drop,
{
}

/// A page that was resolved is opened as the stream that it leads to; any other source
/// is opened as it is.
pub proof fn law_pages_are_opened_as_streams(source: Seq<char>, stream: Seq<char>)
    ensures
        is_page(source) ==> opened_source(source, false, Some(stream)) == stream,
        !is_page(normalized(source, false)) ==> opened_source(source, false, Some(stream))
            == opened_source(source, false, None),
        is_url_text(source) ==> opened_source(source, false, None) == source,
{
    reveal_strlit("http://");
    reveal_strlit("https://");
}

/// A packet goes to the decoder of its stream, and one of a stream that is not played
/// goes nowhere.
pub proof fn law_packets_go_to_their_decoder(
    st: DemuxState,
    v: usize,
    a: usize,
    s: usize,
    other: usize,
)
    requires
        st.video_stream == Some(v),
        st.audio_stream == Some(a),
        st.subtitle_stream == Some(s),
        v != a && a != s && v != s,
        other != v && other != a && other != s,
    ensures
        st.route(v) == Route::Video,
        st.route(a) == Route::Audio,
        st.route(s) == Route::Subtitle,
        st.route(other) == Route::Nowhere,
{
}

/// The demuxer stops where it has to, configures a new subtitle track first, seeks
/// next, and else reads until the end, where it waits.
pub proof fn law_demuxer_does_first_things_first(st: DemuxState, target: i64)
    ensures
        st.step(true) == DemuxStep::Stop,
        !st.subtitles_changed && st.seek_requested == Some(target) ==> st.step(false)
            == DemuxStep::Seek(target),
        !st.subtitles_changed && st.seek_requested is None ==> st.step(false) == (if st.eof {
            DemuxStep::AwaitCommand
        } else {
            DemuxStep::ReadPacket
        }),
{
}

/// Choosing the audio track that is played changes nothing, and choosing another one
/// switches to it; a choice touches nothing but its own stream.
pub proof fn law_choices_touch_their_own_stream(st: DemuxState, i: usize, s: Option<usize>)
    ensures
        st.audio_stream == Some(i) ==> st.effect(DemuxCommand::SelectAudioTrack(i))
            == CommandEffect::Nothing && st.commanded(DemuxCommand::SelectAudioTrack(i)) == st,
        st.audio_stream != Some(i) ==> st.effect(DemuxCommand::SelectAudioTrack(i))
            == CommandEffect::SwitchAudio(i),
        st.commanded(DemuxCommand::SelectAudioTrack(i)).audio_stream == Some(i),
        st.commanded(DemuxCommand::SelectAudioTrack(i)).video_stream == st.video_stream,
        st.commanded(DemuxCommand::SelectAudioTrack(i)).subtitle_stream == st.subtitle_stream,
        st.commanded(DemuxCommand::SelectSubtitleTrack(s)).subtitle_stream == s,
        st.commanded(DemuxCommand::SelectSubtitleTrack(s)).audio_stream == st.audio_stream,
        st.commanded(DemuxCommand::SelectSubtitleTrack(s)).video_stream == st.video_stream,
        st.commanded(DemuxCommand::SelectSubtitleTrack(s)).seek_requested == st.seek_requested,
{
}

/// After a seek that was done both decoders are configured anew; one that failed leaves
/// them alone.
pub proof fn law_seek_configures_the_decoders(st: DemuxState)
    ensures
        st.seek_effect(true).flush,
        st.seek_effect(true).video == st.video_stream,
        st.seek_effect(true).audio == st.audio_stream,
        !st.seek_effect(false).flush,
        st.seek_effect(false).video is None && st.seek_effect(false).audio is None,
{
}

/// A command that comes while a packet waits leaves the streams as the same command at
/// any other time would; a new audio track is taken up by seeking on the spot.
pub proof fn law_commands_in_between_count(
    st: DemuxState,
    i: usize,
    s: Option<usize>,
    t: i64,
    pos: i64,
)
    ensures
        st.commanded_inline(DemuxCommand::SelectAudioTrack(i), pos).audio_stream == Some(i),
        st.commanded_inline(DemuxCommand::SelectAudioTrack(i), pos).seek_requested == Some(pos),
        st.commanded_inline(DemuxCommand::SelectAudioTrack(i), pos).video_stream == st.video_stream,
        st.commanded_inline(DemuxCommand::SelectSubtitleTrack(s), pos).subtitle_stream == s,
        st.commanded_inline(DemuxCommand::SelectSubtitleTrack(s), pos).seek_requested
            == st.seek_requested,
        st.commanded_inline(DemuxCommand::SelectSubtitleTrack(s), pos).audio_stream
            == st.audio_stream,
        st.commanded_inline(DemuxCommand::Seek(t), pos) == st.commanded(DemuxCommand::Seek(t)),
{
}

} // verus!
