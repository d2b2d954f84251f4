//! What the controls do.

use super::filter::holds;
use crate::decoder::DemuxCommand;
use crate::player::clock::{PlaybackClock, clamped_speed, saturated};
use crate::player::engine::{PlayerEngine, limited_volume, not_negative, relative_target};
use crate::player::state::{SharedState, after_count};
use crate::playlist::item::{RepeatMode, entries};
use crate::playlist::order::{
    Order, Playlist, advanced, backward, forward, is_valid, lemma_selected_valid, rewound, selected,
};
use crate::settings::{
    MediaState, Settings, WindowGeometry, bookmarks_of, default_media_state, names, recorded,
    remembered_positions, remembered_states,
};
use crate::text::{ends_with, glue, same_str, to_chars};
use crate::text_map::lookup;
use crate::utils::{format_time, time_text};
use vstd::prelude::*;

verus! {

/// The speeds to choose from, in thousandths.
pub const SPEEDS: [u32; 9] = [250, 500, 750, 1000, 1250, 1500, 2000, 3000, 4000];

/// The place of the normal speed.
pub const SPEED_NORMAL_INDEX: i32 = 3;

/// How far the second point of a loop is from the first one, at least.
pub const LOOP_MIN_US: i64 = 500_000;

/// The greatest delay of subtitles and sound, in milliseconds.
pub const MAX_DELAY_MS: i32 = 30_000;

/// The state of the application.
#[derive(Debug)]
pub struct App {
    pub playlist: Playlist,
    /// The text that is searched in the titles.
    pub playlist_search: String,
    /// The category that is shown; all where it is empty.
    pub playlist_group: String,
    /// Whether only favourites are shown.
    pub playlist_favorites_only: bool,
    /// The categories to choose from.
    pub playlist_groups: Vec<String>,
    /// The places of the entries that are shown.
    pub playlist_visible: Vec<usize>,
    pub settings: Settings,
    /// The volume, in thousandths.
    pub volume_milli: u32,
    /// The gains of the equaliser, in hundredths of a decibel.
    pub equalizer_gains: [i32; 10],
    /// The size of the subtitles, in thousandths.
    pub subtitle_scale_milli: i32,
    pub current_source: Option<String>,
    /// The streams behind the audio tracks to choose from.
    pub audio_track_streams: Vec<usize>,
    /// The streams behind the subtitle tracks to choose from.
    pub subtitle_track_streams: Vec<usize>,
    /// How many chapters the interface shows.
    pub chapter_count: usize,
    /// How much later subtitles are shown, in milliseconds.
    pub sub_delay_ms: i32,
    /// How much later the sound is heard, in milliseconds.
    pub audio_delay_ms: i32,
    pub muted: bool,
    /// The place of the speed among those to choose from.
    pub speed_index: i32,
    pub repeat_mode: RepeatMode,
    /// The entry that was left last.
    pub last_channel: Option<usize>,
    /// The bookmarks of the medium.
    pub bookmark_positions: Vec<i64>,
    /// When the sleep timer ends, in microseconds of real time.
    pub sleep_deadline_us: Option<u64>,
    pub sleep_minutes: u32,
    /// The ends of the part that is repeated.
    pub loop_a: Option<i64>,
    pub loop_b: Option<i64>,
    /// The tracks to choose again once they are known.
    pub pending_audio_track: Option<i32>,
    pub pending_subtitle_track: Option<i32>,
    pub audio_device_names: Vec<String>,
    /// Where a newer version can be had.
    pub update_url: Option<String>,
    /// What was presented when the statistics were last shown.
    pub last_frames_presented: u64,
    pub last_frames_dropped: u64,
}

/// The session as the controls see it.
#[derive(Debug, Clone, Copy, PartialEq, Eq, Structural)]
pub struct SessionView {
    pub position_us: i64,
    pub duration_us: i64,
    pub paused: bool,
}

/// What a control asks for.
#[derive(Debug, Clone, Copy, PartialEq, Eq, Structural)]
pub enum Control {
    Nothing,
    /// Do what the play button does.
    PlayPause,
    /// Pause or resume the session.
    TogglePause,
    /// Pause the session.
    Pause,
    /// Resume the session.
    Resume,
    /// Open the entry under the cursor.
    OpenCurrent,
    /// End the session.
    Stop,
    /// Go to the next entry.
    Next,
    /// Go to the entry before.
    Previous,
    /// Go forward or back by so many microseconds.
    SeekBy(i64),
}

/// What the desktop's media keys ask for.
#[derive(Debug, Clone, Copy, PartialEq, Eq, Structural)]
pub enum MediaEvent {
    Play,
    Pause,
    Toggle,
    Next,
    Previous,
    Stop,
    SeekForward,
    SeekBackward,
    Other,
}

impl App {
    /// Whether the parts are well formed.
    pub open spec fn wf(&self) -> bool {
        &&& is_valid(self.playlist@)
        &&& self.settings.wf()
        &&& 0 <= self.speed_index < 9
    }

    /// The application with these settings: nothing is open.
    pub fn new(
        settings: Settings,
        volume_milli: u32,
        equalizer_gains: [i32; 10],
        subtitle_scale_milli: i32,
        sub_delay_ms: i32,
        audio_delay_ms: i32,
        audio_device_names: Vec<String>,
    ) -> (app: App)
        requires
            settings.wf(),
        ensures
            app.wf(),
            app.settings == settings,
            app.volume_milli == volume_milli,
            app.equalizer_gains == equalizer_gains,
            app.subtitle_scale_milli == subtitle_scale_milli,
            app.sub_delay_ms == sub_delay_ms && app.audio_delay_ms == audio_delay_ms,
            app.audio_device_names == audio_device_names,
            app.playlist@ == crate::playlist::order::empty_order(),
            app.playlist_search@.len() == 0 && app.playlist_group@.len() == 0,
            !app.playlist_favorites_only,
            app.playlist_groups@.len() == 0 && app.playlist_visible@.len() == 0,
            app.current_source is None,
            app.audio_track_streams@.len() == 0 && app.subtitle_track_streams@.len() == 0,
            app.chapter_count == 0 && !app.muted,
            app.speed_index == SPEED_NORMAL_INDEX,
            app.repeat_mode == RepeatMode::Off && app.last_channel is None,
            app.bookmark_positions@.len() == 0,
            app.sleep_deadline_us is None && app.sleep_minutes == 0,
            app.loop_a is None && app.loop_b is None,
            app.pending_audio_track is None && app.pending_subtitle_track is None,
            app.update_url is None,
            app.last_frames_presented == 0 && app.last_frames_dropped == 0,
    {
        App {
            playlist: Playlist::default(),
            playlist_search: String::new(),
            playlist_group: String::new(),
            playlist_favorites_only: false,
            playlist_groups: Vec::new(),
            playlist_visible: Vec::new(),
            settings,
            volume_milli,
            equalizer_gains,
            subtitle_scale_milli,
            current_source: None,
            audio_track_streams: Vec::new(),
            subtitle_track_streams: Vec::new(),
            chapter_count: 0,
            sub_delay_ms,
            audio_delay_ms,
            muted: false,
            speed_index: SPEED_NORMAL_INDEX,
            repeat_mode: RepeatMode::Off,
            last_channel: None,
            bookmark_positions: Vec::new(),
            sleep_deadline_us: None,
            sleep_minutes: 0,
            loop_a: None,
            loop_b: None,
            pending_audio_track: None,
            pending_subtitle_track: None,
            audio_device_names,
            update_url: None,
            last_frames_presented: 0,
            last_frames_dropped: 0,
        }
    }
}

// ---- Opening and closing ---------------------------------------------------

/// A speed's place brought into the table.
pub open spec fn clamped_index(i: i32) -> i32 {
    if i < 0 {
        0
    } else if i > 8 {
        8
    } else {
        i
    }
}

/// The place of the speed with which a medium is opened: the one with which it was
/// left, where that is remembered, or else the one that is set.
pub open spec fn opened_speed(state: Option<MediaState>, current: i32) -> i32 {
    match state {
        Some(st) => clamped_index(st.speed_index),
        None => current,
    }
}

/// A medium that was left with a speed or tracks other than the usual ones is
/// opened again with them, whatever was set meanwhile.
pub proof fn law_reopening_restores(
    states: Map<Seq<char>, MediaState>,
    source: Seq<char>,
    state: MediaState,
    current: i32,
)
    requires
        state != default_media_state(),
        0 <= state.speed_index < 9,
    ensures
        opened_speed(lookup(remembered_states(states, source, state), source), current)
            == state.speed_index,
        lookup(remembered_states(states, source, state), source) == Some(state),
{
}

/// What is said when a medium is opened.
pub open spec fn opening_text(resume: Option<i64>, title: Seq<char>) -> Seq<char> {
    match resume {
        Some(us) => "Reprise à "@ + time_text(us as int),
        None => "Lecture : "@ + title,
    }
}

/// What is said when a medium is opened.
pub fn opening_status(resume: Option<i64>, title: &str) -> (r: String)
    ensures
        r@ == opening_text(resume, title@),
{
    match resume {
        Some(us) => glue("Reprise à ", format_time(us).as_str()),
        None => glue("Lecture : ", title),
    }
}

impl App {
    /// The source and the title of the entry under the cursor.
    pub fn open_current(&self) -> (r: Option<(String, String)>)
        requires
            self.wf(),
        ensures
            r matches Some((source, title)) ==> self.playlist@.current matches Some(c) && source@
                == self.playlist@.items[c as int].source && title@
                == self.playlist@.items[c as int].title,
            r is Some <==> self.playlist@.current is Some,
    {
        match self.playlist.current() {
            Some(item) => Some((item.source.clone(), item.title.clone())),
            None => None,
        }
    }

    /// Takes note that a medium is opened, once the one before is closed. Says
    /// where to resume it. Its speed and its tracks are those with which it was
    /// left.
    pub fn open_source(&mut self, source: &str) -> (resume: Option<i64>)
        requires
            old(self).wf(),
        ensures
            resume == lookup(old(self).settings.resume_positions@, source@),
            final(self).wf(),
            final(self).loop_a is None && final(self).loop_b is None,
            final(self).current_source matches Some(s) && s@ == source@,
            names(final(self).settings.history@) == recorded(
                names(old(self).settings.history@),
                source@,
            ),
            final(self).bookmark_positions@ == bookmarks_of(
                old(self).settings.bookmarks@,
                source@,
            ),
            final(self).speed_index == opened_speed(
                lookup(old(self).settings.media_states@, source@),
                old(self).speed_index,
            ),
            match lookup(old(self).settings.media_states@, source@) {
                Some(st) => final(self).pending_audio_track == Some(st.audio_track)
                    && final(self).pending_subtitle_track == Some(st.subtitle_track),
                None => final(self).pending_audio_track is None
                    && final(self).pending_subtitle_track is None,
            },
            final(self).audio_track_streams@.len() == 0,
            final(self).subtitle_track_streams@.len() == 0,
            final(self).chapter_count == 0,
            *final(self) == (App {
                loop_a: None,
                loop_b: None,
                current_source: final(self).current_source,
                settings: Settings {
                    history: final(self).settings.history,
                    ..old(self).settings
                },
                bookmark_positions: final(self).bookmark_positions,
                speed_index: final(self).speed_index,
                pending_audio_track: final(self).pending_audio_track,
                pending_subtitle_track: final(self).pending_subtitle_track,
                audio_track_streams: final(self).audio_track_streams,
                subtitle_track_streams: final(self).subtitle_track_streams,
                chapter_count: 0,
                ..*old(self)
            }),
    {
        self.loop_a = None;
        self.loop_b = None;
        let resume: Option<i64> = self.settings.resume_position(source);
        match self.settings.media_state(source) {
            Some(st) => {
                self.speed_index = if st.speed_index < 0 {
                    0
                } else if st.speed_index > 8 {
                    8
                } else {
                    st.speed_index
                };
                self.pending_audio_track = Some(st.audio_track);
                self.pending_subtitle_track = Some(st.subtitle_track);
            },
            None => {
                self.pending_audio_track = None;
                self.pending_subtitle_track = None;
            },
        }
        self.current_source = Some(source.to_owned());
        self.bookmark_positions = self.settings.bookmarks_for(source);
        self.settings.push_history(source);
        self.audio_track_streams = Vec::new();
        self.subtitle_track_streams = Vec::new();
        self.chapter_count = 0;
        resume
    }

    /// Gives a session what the user has chosen: volume, speed, delays,
    /// equaliser, normalisation.
    pub fn apply_to(&self, engine: &mut PlayerEngine, at: u64)
        requires
            self.wf(),
        ensures
            final(engine).shared == (SharedState {
                volume_milli: if self.volume_milli > 1250 {
                    1250
                } else {
                    self.volume_milli
                },
                muted: self.muted,
                speed_milli: SPEEDS@[self.speed_index as int],
                clock: PlaybackClock {
                    speed_milli: SPEEDS@[self.speed_index as int],
                    ..old(engine).shared.clock.anchored(at)
                },
                subtitle_delay_us: (self.sub_delay_ms * 1000) as i64,
                audio_delay_us: (self.audio_delay_ms * 1000) as i64,
                equalizer: self.equalizer_gains,
                normalize: self.settings.normalize_audio,
                eq_generation: after_count(after_count(old(engine).shared.eq_generation)),
                ..old(engine).shared
            }),
    {
        engine.set_volume(self.volume_milli);
        engine.set_muted(self.muted);
        let speeds: [u32; 9] = SPEEDS;
        let speed: u32 = speeds[self.speed_index as usize];
        assert(forall|i: int| 0 <= i < 9 ==> 250 <= #[trigger] SPEEDS@[i] <= 4000);
        engine.set_speed(speed, at);
        engine.set_subtitle_delay(self.sub_delay_ms as i64 * 1000);
        engine.set_audio_delay(self.audio_delay_ms as i64 * 1000);
        engine.set_equalizer(self.equalizer_gains);
        engine.shared.set_normalize(self.settings.normalize_audio);
    }

    /// Takes note that the session ends. Where `session` is given, with the
    /// tracks that are chosen, its place and its tracks are remembered.
    pub fn stop_current(&mut self, session: Option<SessionView>, audio_track: i32, subtitle_track:
        i32)
        requires
            old(self).wf(),
        ensures
            final(self).wf(),
            final(self).current_source is None,
            match (session, old(self).current_source) {
                (Some(s), Some(source)) => {
                    &&& final(self).settings.resume_positions@ == remembered_positions(
                        old(self).settings.resume_positions@,
                        source@,
                        s.position_us,
                        s.duration_us,
                    )
                    &&& final(self).settings.media_states@ == remembered_states(
                        old(self).settings.media_states@,
                        source@,
                        (MediaState {
                            speed_index: old(self).speed_index,
                            audio_track,
                            subtitle_track,
                        }),
                    )
                    &&& *final(self) == (App {
                        current_source: None,
                        settings: Settings {
                            resume_positions: final(self).settings.resume_positions,
                            media_states: final(self).settings.media_states,
                            ..old(self).settings
                        },
                        ..*old(self)
                    })
                },
                _ => *final(self) == (App { current_source: None, ..*old(self) }),
            },
    {
        if let (Some(s), Some(source)) = (session, &self.current_source) {
            self.settings.remember_position(source.as_str(), s.position_us, s.duration_us);
            self.settings.remember_media_state(
                source.as_str(),
                MediaState { speed_index: self.speed_index, audio_track, subtitle_track },
            );
        }
        self.current_source = None;
    }

    /// Remembers the size of the window, unless it is absurd.
    pub fn remember_window_geometry(&mut self, width: u32, height: u32)
        ensures
            *final(self) == (if 200 <= width <= 16_384 && 150 <= height <= 16_384 {
                App {
                    settings: Settings {
                        window: Some(WindowGeometry { width, height }),
                        ..old(self).settings
                    },
                    ..*old(self)
                }
            } else {
                *old(self)
            }),
            !is_window_size(width, height) ==> *final(self) == *old(self),
            is_window_size(width, height) ==> final(self).settings.window == Some(
                WindowGeometry { width, height },
            ),
    {
        if 200 <= width && width <= 16_384 && 150 <= height && height <= 16_384 {
            self.settings.window = Some(WindowGeometry { width, height });
        }
    }
}

// ---- Playing ---------------------------------------------------------------

/// What pressing play does: where nothing is open the playlist is started, from
/// its beginning where there is no entry under the cursor.
pub open spec fn play_pause_order(o: Order, open: bool, seed: u64) -> Order {
    if !open && o.current is None {
        advanced(o, seed)
    } else {
        o
    }
}

impl App {
    /// Pauses or resumes; where nothing is open, starts the playlist.
    pub fn play_pause(&mut self, open: bool) -> (r: Control)
        requires
            old(self).wf(),
        ensures
            r == (if open {
                Control::TogglePause
            } else {
                Control::OpenCurrent
            }),
            exists|seed: u64|
                seed != 0 && final(self).playlist@ == #[trigger] play_pause_order(
                    old(self).playlist@,
                    open,
                    seed,
                ),
            *final(self) == (App { playlist: final(self).playlist, ..*old(self) }),
            final(self).wf(),
    {
        let ghost o = self.playlist@;
        if open {
            assert(play_pause_order(o, open, 1) == o);
            return Control::TogglePause;
        }
        if self.playlist.current_index().is_none() {
            let _ = self.playlist.advance();
            proof {
                let s = choose|s: u64| s != 0 && self.playlist@ == #[trigger] advanced(o, s);
                assert(play_pause_order(o, open, s) == self.playlist@);
            }
        } else {
            assert(play_pause_order(o, open, 1) == o);
        }
        Control::OpenCurrent
    }

    /// What a media key asks for.
    pub fn apply_media_event(&self, event: MediaEvent, open: bool) -> (r: Control)
        ensures
            r == (match event {
                MediaEvent::Play => if open {
                    Control::Resume
                } else {
                    Control::PlayPause
                },
                MediaEvent::Pause => if open {
                    Control::Pause
                } else {
                    Control::Nothing
                },
                MediaEvent::Toggle => Control::PlayPause,
                MediaEvent::Next => Control::Next,
                MediaEvent::Previous => Control::Previous,
                MediaEvent::Stop => Control::Stop,
                MediaEvent::SeekForward => Control::SeekBy(10_000_000),
                MediaEvent::SeekBackward => Control::SeekBy((-10_000_000int) as i64),
                MediaEvent::Other => Control::Nothing,
            }),
            r == control_for(event, open),
    {
        match event {
            MediaEvent::Play => if open {
                Control::Resume
            } else {
                Control::PlayPause
            },
            MediaEvent::Pause => if open {
                Control::Pause
            } else {
                Control::Nothing
            },
            MediaEvent::Toggle => Control::PlayPause,
            MediaEvent::Next => Control::Next,
            MediaEvent::Previous => Control::Previous,
            MediaEvent::Stop => Control::Stop,
            MediaEvent::SeekForward => Control::SeekBy(10_000_000),
            MediaEvent::SeekBackward => Control::SeekBy(-10_000_000),
            MediaEvent::Other => Control::Nothing,
        }
    }

    /// Goes to the next entry, and says whether there is one to open.
    pub fn next(&mut self) -> (open: bool)
        requires
            old(self).wf(),
        ensures
            exists|seed: u64|
                seed != 0 && final(self).playlist@ == #[trigger] advanced(
                    old(self).playlist@,
                    seed,
                ) && open == (forward(old(self).playlist@, seed) is Some),
            final(self).last_channel == (if open {
                old(self).playlist@.current
            } else {
                old(self).last_channel
            }),
            *final(self) == (App {
                playlist: final(self).playlist,
                last_channel: final(self).last_channel,
                ..*old(self)
            }),
            final(self).wf(),
    {
        let leaving: Option<usize> = self.playlist.current_index();
        let open: bool = self.playlist.advance().is_some();
        if open {
            self.last_channel = leaving;
        }
        open
    }

    /// Goes to the entry before, and says whether there is one to open.
    pub fn previous(&mut self) -> (open: bool)
        requires
            old(self).wf(),
        ensures
            final(self).playlist@ == rewound(old(self).playlist@),
            open == (backward(old(self).playlist@) is Some),
            *final(self) == (App {
                playlist: final(self).playlist,
                last_channel: if open {
                    old(self).playlist@.current
                } else {
                    old(self).last_channel
                },
                ..*old(self)
            }),
            final(self).wf(),
    {
        let leaving: Option<usize> = self.playlist.current_index();
        let open: bool = self.playlist.previous().is_some();
        if open {
            self.last_channel = leaving;
        }
        open
    }

    /// Goes back to the entry that was left last, and remembers the one that is
    /// left now, so that one can go to and fro. Says whether there is one to
    /// open, and what to tell the user where none was left.
    pub fn zap_back(&mut self) -> (r: (bool, Option<&'static str>))
        requires
            old(self).wf(),
        ensures
            match old(self).last_channel {
                None => !r.0 && (r.1 matches Some(s) && s@ == "Aucune chaîne précédente"@)
                    && *final(self) == *old(self),
                Some(t) => r.1 is None && r.0 == (t < old(self).playlist@.items.len())
                    && final(self).playlist@ == selected(old(self).playlist@, t as int)
                    && *final(self) == (App {
                    playlist: final(self).playlist,
                    last_channel: if r.0 {
                        old(self).playlist@.current
                    } else {
                        None
                    },
                    ..*old(self)
                }),
            },
            final(self).wf(),
    {
        match self.last_channel {
            None => (false, Some("Aucune chaîne précédente")),
            Some(target) => {
                if target >= self.playlist.len() {
                    self.last_channel = None;
                    return (false, None);
                }
                let leaving: Option<usize> = self.playlist.current_index();
                let open: bool = self.playlist.select(target).is_some();
                self.last_channel = leaving;
                (open, None)
            },
        }
    }
}

/// Going back twice leads to where one was.
pub proof fn law_zap_back_twice(o: Order, target: usize, c: usize)
    requires
        is_valid(o),
        o.items.len() <= usize::MAX,
        o.current == Some(c),
        target < o.items.len(),
    ensures
        selected(selected(o, target as int), c as int).current == o.current,
{
    lemma_selected_valid(o, target as int);
}

// ---- Sound, speed and picture ----------------------------------------------

/// What a media key asks for, where a medium is open or not.
pub open spec fn control_for(event: MediaEvent, open: bool) -> Control {
    match event {
        MediaEvent::Play => if open {
            Control::Resume
        } else {
            Control::PlayPause
        },
        MediaEvent::Pause => if open {
            Control::Pause
        } else {
            Control::Nothing
        },
        MediaEvent::Toggle => Control::PlayPause,
        MediaEvent::Next => Control::Next,
        MediaEvent::Previous => Control::Previous,
        MediaEvent::Stop => Control::Stop,
        MediaEvent::SeekForward => Control::SeekBy(10_000_000),
        MediaEvent::SeekBackward => Control::SeekBy((-10_000_000int) as i64),
        MediaEvent::Other => Control::Nothing,
    }
}

/// The position at a part of a medium, in millionths of its length.
pub open spec fn fraction_target(duration: i64, millionths: u32) -> i64 {
    let part = if millionths > 1_000_000 {
        1_000_000
    } else {
        millionths as int
    };
    (duration * part / 1_000_000) as i64
}

/// A scale of the subtitles after a change, brought into its range.
pub open spec fn adjusted_scale(milli: i32, delta: i32) -> i32 {
    if milli + delta < 500 {
        500
    } else if milli + delta > 2500 {
        2500
    } else {
        (milli + delta) as i32
    }
}

/// Whether a window of this size is worth remembering.
pub open spec fn is_window_size(width: u32, height: u32) -> bool {
    200 <= width <= 16_384 && 150 <= height <= 16_384
}

/// Quarter turns, one more: after three comes none.
pub open spec fn turned(rotation: u8) -> u8 {
    ((rotation + 1) % 4) as u8
}

/// After four quarter turns the picture is upright again.
pub proof fn law_rotation_cycles(rotation: u8)
    requires
        rotation < 4,
    ensures
        turned(rotation) < 4 && turned(rotation) != rotation,
        turned(turned(turned(turned(rotation)))) == rotation,
{
}

impl App {
    /// Sets the volume, in thousandths, brought into its range.
    pub fn set_volume(&mut self, milli: u32)
        ensures
            *final(self) == (App {
                volume_milli: if milli > 1250 {
                    1250
                } else {
                    milli
                },
                ..*old(self)
            }),
            final(self).volume_milli == limited_volume(milli),
    {
        self.volume_milli = if milli > 1250 {
            1250
        } else {
            milli
        };
    }

    /// Mutes or unmutes.
    pub fn toggle_mute(&mut self)
        ensures
            *final(self) == (App { muted: !old(self).muted, ..*old(self) }),
    {
        self.muted = !self.muted;
    }

    /// Normalises the loudness or not, and says which.
    pub fn toggle_normalize(&mut self) -> (status: &'static str)
        ensures
            *final(self) == (App {
                settings: Settings {
                    normalize_audio: !old(self).settings.normalize_audio,
                    ..old(self).settings
                },
                ..*old(self)
            }),
            status@ == (if final(self).settings.normalize_audio {
                "Normalisation du volume : activée"@
            } else {
                "Normalisation du volume : désactivée"@
            }),
    {
        self.settings.normalize_audio = !self.settings.normalize_audio;
        if self.settings.normalize_audio {
            "Normalisation du volume : activée"
        } else {
            "Normalisation du volume : désactivée"
        }
    }

    /// Chooses a speed of the table, and says which one it is, in thousandths.
    pub fn set_speed_index(&mut self, index: i32) -> (speed_milli: u32)
        ensures
            *final(self) == (App { speed_index: clamped_index(index), ..*old(self) }),
            speed_milli == SPEEDS@[clamped_index(index) as int],
    {
        let i: i32 = if index < 0 {
            0
        } else if index > 8 {
            8
        } else {
            index
        };
        self.speed_index = i;
        let speeds: [u32; 9] = SPEEDS;
        speeds[i as usize]
    }

    /// Light or dark theme.
    pub fn toggle_theme(&mut self)
        ensures
            *final(self) == (App {
                settings: Settings {
                    dark_theme: !old(self).settings.dark_theme,
                    ..old(self).settings
                },
                ..*old(self)
            }),
    {
        self.settings.dark_theme = !self.settings.dark_theme;
    }

    /// Changes the language of the interface from the one in use, and says which
    /// one it is then.
    pub fn cycle_language(&mut self, current: &str) -> (r: &'static str)
        ensures
            r@ == (if current@ == "en"@ {
                "fr"@
            } else {
                "en"@
            }),
            final(self).settings.language@ == r@,
            *final(self) == (App {
                settings: Settings {
                    language: final(self).settings.language,
                    ..old(self).settings
                },
                ..*old(self)
            }),
    {
        let now = to_chars(current);
        let next: &'static str = if same_str("en", &now) {
            "fr"
        } else {
            "en"
        };
        self.settings.language = next.to_owned();
        next
    }

    /// Turns the picture by a quarter. Says what command shows it anew, and what
    /// to tell the user.
    pub fn cycle_rotation(&self, engine: &mut PlayerEngine, at: u64) -> (r: (
        Option<DemuxCommand>,
        &'static str,
    ))
        ensures
            final(engine).shared == (SharedState {
                rotation: turned(old(engine).shared.rotation),
                ..old(engine).shared
            }),
            r.0 == (if old(engine).shared.clock.paused {
                Some(DemuxCommand::Seek(not_negative(old(engine).shared.clock.position(at))))
            } else {
                None
            }),
            r.1@ == (match final(engine).shared.rotation {
                1 => "Rotation : 90°"@,
                2 => "Rotation : 180°"@,
                3 => "Rotation : 270°"@,
                _ => "Rotation : aucune"@,
            }),
    {
        let next: u8 = ((engine.shared.rotation as u32 + 1) % 4) as u8;
        engine.shared.rotation = next;
        let text: &'static str = if next == 1 {
            "Rotation : 90°"
        } else if next == 2 {
            "Rotation : 180°"
        } else if next == 3 {
            "Rotation : 270°"
        } else {
            "Rotation : aucune"
        };
        (engine.redraw(at), text)
    }

    /// Adjusts the picture (in thousandths). Says what command shows it anew.
    pub fn set_image_adjust(
        &self,
        engine: &mut PlayerEngine,
        brightness: i32,
        contrast: i32,
        saturation: i32,
        at: u64,
    ) -> (r: Option<DemuxCommand>)
        ensures
            final(engine).shared == (SharedState {
                brightness_milli: clamped(brightness, -1000, 1000),
                contrast_milli: clamped(contrast, 0, 2000),
                saturation_milli: clamped(saturation, 0, 3000),
                ..old(engine).shared
            }),
            r == (if old(engine).shared.clock.paused {
                Some(DemuxCommand::Seek(not_negative(old(engine).shared.clock.position(at))))
            } else {
                None
            }),
    {
        engine.shared.brightness_milli = clamp_to(brightness, -1000, 1000);
        engine.shared.contrast_milli = clamp_to(contrast, 0, 2000);
        engine.shared.saturation_milli = clamp_to(saturation, 0, 3000);
        engine.redraw(at)
    }

    /// Enhances the picture (in thousandths). Says what command shows it anew.
    pub fn set_video_enhance(
        &self,
        engine: &mut PlayerEngine,
        gamma: i32,
        sharpen: i32,
        denoise: i32,
        at: u64,
    ) -> (r: Option<DemuxCommand>)
        ensures
            final(engine).shared == (SharedState {
                gamma_milli: clamped(gamma, 100, 4000),
                sharpen_milli: clamped(sharpen, 0, 3000),
                denoise_milli: clamped(denoise, 0, 2000),
                ..old(engine).shared
            }),
            r == (if old(engine).shared.clock.paused {
                Some(DemuxCommand::Seek(not_negative(old(engine).shared.clock.position(at))))
            } else {
                None
            }),
    {
        engine.shared.gamma_milli = clamp_to(gamma, 100, 4000);
        engine.shared.sharpen_milli = clamp_to(sharpen, 0, 3000);
        engine.shared.denoise_milli = clamp_to(denoise, 0, 2000);
        engine.redraw(at)
    }

    /// The command that goes to a part of the medium, given in millionths of its
    /// length; none where that is unknown.
    pub fn seek_fraction(&self, engine: &PlayerEngine, millionths: u32) -> (r: Option<DemuxCommand>)
        ensures
            r == (if engine.shared.duration_us > 0 {
                let part = if millionths > 1_000_000 {
                    1_000_000
                } else {
                    millionths as int
                };
                Some(DemuxCommand::Seek((engine.shared.duration_us * part / 1_000_000) as i64))
            } else {
                None
            }),
            engine.shared.duration_us > 0 ==> r == Some(
                DemuxCommand::Seek(fraction_target(engine.shared.duration_us, millionths)),
            ),
    {
        let duration: i64 = engine.duration_us();
        if duration <= 0 {
            return None;
        }
        let part: u32 = if millionths > 1_000_000 {
            1_000_000
        } else {
            millionths
        };
        assert(0 <= duration * part <= duration * 1_000_000) by (nonlinear_arith)
            requires
                0 <= part <= 1_000_000,
                0 < duration,
        ;
        let target: i128 = duration as i128 * part as i128 / 1_000_000;
        Some(engine.seek(target as i64))
    }

    /// Goes to the next picture or to the one before; the session is paused for
    /// it.
    pub fn step_frame(&self, engine: &mut PlayerEngine, forward: bool, at: u64) -> (r: DemuxCommand)
        ensures
            final(engine).shared == (SharedState {
                clock: if old(engine).shared.clock.paused {
                    old(engine).shared.clock
                } else {
                    PlaybackClock { paused: true, ..old(engine).shared.clock.anchored(at) }
                },
                ..old(engine).shared
            }),
            r == DemuxCommand::Seek(
                not_negative(
                    saturated(
                        not_negative(old(engine).shared.clock.position(at)) + (if forward {
                            old(engine).picture_step()
                        } else {
                            -old(engine).picture_step()
                        }),
                    ),
                ),
            ),
            forward ==> r == DemuxCommand::Seek(
                relative_target(old(engine).shared.clock.position(at), old(engine).picture_step()),
            ),
            !forward ==> r == DemuxCommand::Seek(
                relative_target(old(engine).shared.clock.position(at), -old(engine).picture_step()),
            ),
    {
        proof {
            crate::player::clock::law_position_is_kept(engine.shared.clock, true, 1000, at);
        }
        if !engine.is_paused() {
            engine.set_paused(true, at);
        }
        engine.step_frame(forward, at)
    }

    /// A delay of the subtitles, changed by so many milliseconds.
    pub fn adjust_subtitle_delay(&mut self, delta_ms: i32)
        ensures
            *final(self) == (App {
                sub_delay_ms: adjusted_delay(old(self).sub_delay_ms, delta_ms),
                ..*old(self)
            }),
    {
        self.sub_delay_ms = adjust_delay(self.sub_delay_ms, delta_ms);
    }

    /// A delay of the sound, changed by so many milliseconds.
    pub fn adjust_audio_delay(&mut self, delta_ms: i32)
        ensures
            *final(self) == (App {
                audio_delay_ms: adjusted_delay(old(self).audio_delay_ms, delta_ms),
                ..*old(self)
            }),
    {
        self.audio_delay_ms = adjust_delay(self.audio_delay_ms, delta_ms);
    }

    /// Makes the subtitles larger or smaller, between half and two and a half times
    /// their size.
    pub fn adjust_subtitle_scale(&mut self, delta_milli: i32)
        ensures
            *final(self) == (App {
                subtitle_scale_milli: ({
                    let sum = old(self).subtitle_scale_milli + delta_milli;
                    if sum < 500 {
                        500
                    } else if sum > 2500 {
                        2500
                    } else {
                        sum as i32
                    }
                }),
                ..*old(self)
            }),
            final(self).subtitle_scale_milli == adjusted_scale(
                old(self).subtitle_scale_milli,
                delta_milli,
            ),
    {
        let sum: i64 = self.subtitle_scale_milli as i64 + delta_milli as i64;
        self.subtitle_scale_milli = if sum < 500 {
            500
        } else if sum > 2500 {
            2500
        } else {
            sum as i32
        };
    }

    /// Gives all subtitles a colour (`0xRRGGBB`); a negative one lets them have
    /// their own.
    pub fn set_subtitle_color(&mut self, code: i32)
        ensures
            *final(self) == (App {
                settings: Settings {
                    subtitle_color: if code < 0 {
                        None
                    } else {
                        Some(code as u32)
                    },
                    ..old(self).settings
                },
                ..*old(self)
            }),
    {
        self.settings.subtitle_color = if code < 0 {
            None
        } else {
            Some(code as u32)
        };
    }
}

/// A number brought into a range.
pub open spec fn clamped(n: i32, low: int, high: int) -> i32 {
    if n < low {
        low as i32
    } else if n > high {
        high as i32
    } else {
        n
    }
}

/// A number brought into a range.
fn clamp_to(n: i32, low: i32, high: i32) -> (r: i32)
    ensures
        r == clamped(n, low as int, high as int),
{
    if n < low {
        low
    } else if n > high {
        high
    } else {
        n
    }
}

/// A delay after a change, brought into its range.
pub open spec fn adjusted_delay(ms: i32, delta: i32) -> i32 {
    if ms + delta > MAX_DELAY_MS {
        MAX_DELAY_MS
    } else if ms + delta < -MAX_DELAY_MS {
        (-MAX_DELAY_MS) as i32
    } else {
        (ms + delta) as i32
    }
}

/// A delay after a change, brought into its range.
fn adjust_delay(ms: i32, delta: i32) -> (r: i32)
    ensures
        r == adjusted_delay(ms, delta),
{
    let sum: i64 = ms as i64 + delta as i64;
    if sum > MAX_DELAY_MS as i64 {
        MAX_DELAY_MS
    } else if sum < -(MAX_DELAY_MS as i64) {
        -MAX_DELAY_MS
    } else {
        sum as i32
    }
}

// ---- Laws ------------------------------------------------------------------

/// A number in its range stays, and one outside goes to the nearer end.
pub proof fn law_numbers_stay_in_range(n: i32, low: i32, high: i32)
    requires
        low <= high,
    ensures
        low <= clamped(n, low as int, high as int) <= high,
        low <= n <= high ==> clamped(n, low as int, high as int) == n,
        n < low ==> clamped(n, low as int, high as int) == low,
        n > high ==> clamped(n, low as int, high as int) == high,
        0 <= clamped_index(n) <= 8,
        0 <= n <= 8 ==> clamped_index(n) == n,
        n < 0 ==> clamped_index(n) == 0,
        n > 8 ==> clamped_index(n) == 8,
{
}

/// A delay changes by what is asked, up to half a minute either way; going back by as
/// much undoes it where no end was reached.
pub proof fn law_delay_changes_by_what_is_asked(ms: i32, delta: i32)
    requires
        -30_000 <= ms <= 30_000,
        delta > i32::MIN,
    ensures
        -30_000 <= ms + delta <= 30_000 ==> adjusted_delay(ms, delta) == ms + delta
            && adjusted_delay(adjusted_delay(ms, delta), (-delta) as i32) == ms,
        ms + delta > 30_000 ==> adjusted_delay(ms, delta) == 30_000,
        ms + delta < -30_000 ==> adjusted_delay(ms, delta) == -30_000,
{
}

/// Quarter turns go one by one, and the fourth brings the picture upright.
pub proof fn law_quarter_turns_go_one_by_one(rotation: u8)
    ensures
        rotation < 3 ==> turned(rotation) == rotation + 1,
        rotation == 3 ==> turned(rotation) == 0,
{
}

/// Pressing play starts the list where nothing is open and nothing is chosen, and
/// else leaves it as it is.
pub proof fn law_play_starts_the_list(o: Order, open: bool, seed: u64)
    requires
        is_valid(o),
        !o.shuffle,
        0 < o.items.len() <= usize::MAX,
    ensures
        !open && o.current is None ==> play_pause_order(o, open, seed).current == Some(0usize),
        open || o.current is Some ==> play_pause_order(o, open, seed) == o,
{
}

/// A part of a medium stands as far into it as the part is of the whole: its beginning at
/// nothing, its end at the whole and beyond, and a position in between in proportion.
pub proof fn law_fraction_is_in_proportion(duration: i64, millionths: u32)
    requires
        0 < duration,
    ensures
        fraction_target(duration, 0) == 0,
        millionths >= 1_000_000 ==> fraction_target(duration, millionths) == duration,
        millionths <= 1_000_000 ==> {
            let t = fraction_target(duration, millionths);
            1_000_000 * t <= duration * millionths < 1_000_000 * (t + 1)
        },
{
    let (d, p) = (duration as int, millionths as int);
    assert(d * 0 == 0 && d * 1_000_000 / 1_000_000 == d) by (nonlinear_arith);
    if p <= 1_000_000 {
        assert(0 <= d * p <= d * 1_000_000) by (nonlinear_arith)
            requires
                0 <= p <= 1_000_000,
                0 < d,
        ;
    }
}

/// The subtitles are scaled by what is asked, between a half and two and a half.
pub proof fn law_scale_changes_by_what_is_asked(milli: i32, delta: i32)
    ensures
        500 <= adjusted_scale(milli, delta) <= 2500,
        500 <= milli + delta <= 2500 ==> adjusted_scale(milli, delta) == milli + delta,
        milli + delta > 2500 ==> adjusted_scale(milli, delta) == 2500,
        milli + delta < 500 ==> adjusted_scale(milli, delta) == 500,
{
}

/// A window is remembered where it is large enough to use and small enough to be real.
pub proof fn law_absurd_windows_are_forgotten(width: u32, height: u32)
    ensures
        width < 200 || height < 150 || width > 16_384 || height > 16_384 <==> !is_window_size(
            width,
            height,
        ),
{
}

/// The speeds go up from a quarter to four times the normal one, which is the fourth.
pub proof fn law_speeds_go_up(i: int, j: int)
    requires
        0 <= i < j < 9,
    ensures
        250 <= SPEEDS@[i] < SPEEDS@[j] <= 4000,
        SPEEDS@[3] == 1000,
        clamped_speed(SPEEDS@[i]) == SPEEDS@[i],
        clamped_speed(SPEEDS@[j]) == SPEEDS@[j],
{
}

/// A medium is opened at the speed with which it was left, or at the one that is set
/// where it was not left; the usual speed is the normal one.
pub proof fn law_opened_speed(state: MediaState, current: i32)
    ensures
        opened_speed(None, current) == current,
        0 <= state.speed_index < 9 ==> opened_speed(Some(state), current) == state.speed_index,
        SPEEDS@[default_media_state().speed_index as int] == 1000,
        default_media_state().audio_track == 0 && default_media_state().subtitle_track == 0,
{
}

/// What is said where a medium is opened: that it is resumed, and where, or its title.
pub proof fn law_opening_is_announced(us: i64, title: Seq<char>)
    ensures
        ends_with(opening_text(Some(us), title), time_text(us as int)),
        ends_with(opening_text(None, title), title),
{
    let (a, b) = (opening_text(Some(us), title), opening_text(None, title));
    let n = a.len() - time_text(us as int).len();
    assert(a.subrange(n, a.len() as int) == time_text(us as int));
    let k = b.len() - title.len();
    assert(b.subrange(k, b.len() as int) == title);
}

/// Playing never pauses, pausing never plays and does nothing where nothing is open, and
/// going forward and back by a key cancel each other, ten seconds each.
pub proof fn law_media_keys_do_as_they_say(open: bool)
    ensures
        control_for(MediaEvent::Play, true) == Control::Resume,
        control_for(MediaEvent::Play, false) == control_for(MediaEvent::Toggle, false),
        control_for(MediaEvent::Pause, true) == Control::Pause,
        control_for(MediaEvent::Pause, false) == Control::Nothing,
        control_for(MediaEvent::Next, open) == Control::Next,
        control_for(MediaEvent::Previous, open) == Control::Previous,
        control_for(MediaEvent::Stop, open) == Control::Stop,
        control_for(MediaEvent::SeekForward, open) matches Control::SeekBy(a) && control_for(
            MediaEvent::SeekBackward,
            open,
        ) matches Control::SeekBy(b) && a == 10_000_000 && a + b == 0,
        control_for(MediaEvent::Other, open) == Control::Nothing,
{
}

} // verus!
