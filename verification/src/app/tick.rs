//! What is done from time to time: following the session, and what comes after
//! it.

use super::session::App;
use crate::player::clock::saturated;
use crate::player::engine::{PlayerEngine, not_negative};
use crate::player::state::{SharedState, shown_text};
use crate::playlist::item::RepeatMode;
use crate::playlist::order::{Order, advanced, forward, is_valid, lemma_drawn, next_rng, selected};
use crate::settings::Settings;
use crate::subtitles::markup::CueStyle;
use crate::subtitles::track::active_style;
use crate::text::glue;
use crate::update::UpdateInfo;
use crate::utils::{format_time, time_text};
use vstd::prelude::*;

verus! {

/// A colour.
#[derive(Debug, Clone, Copy, PartialEq, Eq, Structural)]
pub struct Color {
    pub red: u8,
    pub green: u8,
    pub blue: u8,
}

/// The colour `0xRRGGBB` stands for.
pub open spec fn color_of(rgb: u32) -> Color {
    Color {
        red: (rgb / 65_536 % 256) as u8,
        green: (rgb / 256 % 256) as u8,
        blue: (rgb % 256) as u8,
    }
}

/// The colour `0xRRGGBB` stands for.
pub fn split_color(rgb: u32) -> (c: Color)
    ensures
        c == color_of(rgb),
{
    Color {
        red: (rgb / 65_536 % 256) as u8,
        green: (rgb / 256 % 256) as u8,
        blue: (rgb % 256) as u8,
    }
}

/// The session as the interface shows it.
#[derive(Debug)]
pub struct PlaybackView {
    pub playing: bool,
    pub has_video: bool,
    /// Whether the length is known, so that one can go to a position.
    pub seekable: bool,
    /// The position, no more than the length where that is known.
    pub position_us: i64,
    pub duration_us: i64,
    pub position_text: String,
    pub duration_text: String,
    /// The subtitle, empty where there is none.
    pub subtitle: String,
    pub style: CueStyle,
    pub color: Color,
    /// Whether the desktop has to stay awake.
    pub keep_awake: bool,
}

/// The position that is shown.
pub open spec fn shown_position(position: i64, duration: i64) -> i64 {
    if duration > 0 && position > duration {
        duration
    } else {
        position
    }
}

/// How much a count has grown; nothing where it began anew.
pub open spec fn grown_by(now: u64, before: u64) -> u64 {
    if now > before {
        (now - before) as u64
    } else {
        0
    }
}

/// The colour of a subtitle: the one that the user has chosen, or else that of
/// its style, or else white.
pub open spec fn subtitle_color(forced: Option<u32>, style: Option<u32>) -> Color {
    match (forced, style) {
        (Some(c), _) => color_of(c),
        (None, Some(c)) => color_of(c),
        (None, None) => Color { red: 255, green: 255, blue: 255 },
    }
}

impl App {
    /// The session as the interface shows it.
    pub fn playback_view(&self, engine: &PlayerEngine, at: u64) -> (v: PlaybackView)
        requires
            engine.shared.wf(),
        ensures
            ({
                let s = engine.shared;
                let pos = shown_position(not_negative(s.clock.position(at)), s.duration_us);
                let t = saturated(pos - s.subtitle_delay_us) as int;
                &&& v.playing == !s.clock.paused
                &&& v.has_video == s.has_video
                &&& v.seekable == (s.duration_us > 0)
                &&& v.position_us == pos && v.duration_us == s.duration_us
                &&& v.position_text@ == time_text(pos as int)
                &&& v.duration_text@ == (if s.duration_us > 0 {
                    time_text(s.duration_us as int)
                } else {
                    "direct"@
                })
                &&& v.subtitle@ == (match shown_text(s.shown_cues(), t) {
                    Some(text) => text,
                    None => seq![],
                })
                &&& v.style == active_style(s.shown_cues(), t)
                &&& v.color == subtitle_color(self.settings.subtitle_color, v.style.color)
                &&& v.keep_awake == (!s.clock.paused && s.has_video)
            }),
    {
        let duration: i64 = engine.duration_us();
        let now: i64 = engine.position_us(at);
        let position: i64 = if duration > 0 && now > duration {
            duration
        } else {
            now
        };
        let paused: bool = engine.is_paused();
        let duration_text = if duration > 0 {
            format_time(duration)
        } else {
            "direct".to_owned()
        };
        let subtitle = match engine.shared.subtitle_at(position) {
            Some(text) => text,
            None => String::new(),
        };
        let style = engine.shared.subtitle_style_at(position);
        let color = match self.settings.subtitle_color {
            Some(c) => split_color(c),
            None => match style.color {
                Some(c) => split_color(c),
                None => Color { red: 255, green: 255, blue: 255 },
            },
        };
        let v = PlaybackView {
            playing: !paused,
            has_video: engine.shared.has_video,
            seekable: duration > 0,
            position_us: position,
            duration_us: duration,
            position_text: format_time(position),
            duration_text,
            subtitle,
            style,
            color,
            keep_awake: !paused && engine.shared.has_video,
        };
        proof {
            let t = saturated(position - engine.shared.subtitle_delay_us) as int;
            if shown_text(engine.shared.shown_cues(), t) is None {
                assert(v.subtitle@ =~= seq![]);
            }
        }
        v
    }

    /// The error of the session to show, which is shown once.
    pub fn take_error(&self, engine: &mut PlayerEngine) -> (r: Option<String>)
        ensures
            r == old(engine).shared.error,
            final(engine).shared == (SharedState { error: None, ..old(engine).shared }),
    {
        engine.shared.error.take()
    }

    /// How many pictures were presented and how many were left out since this was
    /// last asked for.
    pub fn take_stats(&mut self, presented: u64, dropped: u64) -> (r: (u64, u64))
        ensures
            r.0 == (if presented > old(self).last_frames_presented {
                presented - old(self).last_frames_presented
            } else {
                0
            }),
            r.1 == (if dropped > old(self).last_frames_dropped {
                dropped - old(self).last_frames_dropped
            } else {
                0
            }),
            r.0 == grown_by(presented, old(self).last_frames_presented),
            r.1 == grown_by(dropped, old(self).last_frames_dropped),
            *final(self) == (App {
                last_frames_presented: presented,
                last_frames_dropped: dropped,
                ..*old(self)
            }),
    {
        let shown: u64 = presented.saturating_sub(self.last_frames_presented);
        let lost: u64 = dropped.saturating_sub(self.last_frames_dropped);
        self.last_frames_presented = presented;
        self.last_frames_dropped = dropped;
        (shown, lost)
    }

    /// Takes note of a newer version. Says what to tell the user.
    pub fn take_update(&mut self, info: UpdateInfo) -> (status: String)
        ensures
            *final(self) == (App { update_url: Some(info.url), ..*old(self) }),
            status@ == "Mise à jour disponible : v"@ + info.version@,
    {
        let status = glue("Mise à jour disponible : v", info.version.as_str());
        self.update_url = Some(info.url);
        status
    }
}

// ---- The end of a medium ---------------------------------------------------

/// The playlist after a medium has ended.
pub open spec fn order_after_end(o: Order, mode: RepeatMode, seed: u64) -> Order {
    match mode {
        RepeatMode::One => o,
        RepeatMode::All => if forward(o, seed) is Some {
            advanced(o, seed)
        } else {
            selected(o, 0)
        },
        RepeatMode::Off => advanced(o, seed),
    }
}

/// Whether something is played after a medium has ended.
pub open spec fn plays_on(o: Order, mode: RepeatMode, seed: u64) -> bool {
    mode != RepeatMode::Off || forward(o, seed) is Some
}

/// Where the list is repeated there is always an entry to play, unless the list is
/// empty.
pub proof fn law_repeating_all_never_ends(o: Order, seed: u64)
    requires
        is_valid(o),
        0 < o.items.len() <= usize::MAX,
    ensures
        plays_on(o, RepeatMode::All, seed),
        order_after_end(o, RepeatMode::All, seed).current is Some,
{
    if let Some(i) = forward(o, seed) {
        if !o.shuffle || o.items.len() == 1 {
            assert(0 <= i < o.items.len());
        } else {
            lemma_drawn(o, next_rng(o.rng, seed));
        }
    }
}

/// Where an entry is repeated the cursor stays on it.
pub proof fn law_repeating_one_stays(o: Order, seed: u64)
    ensures
        order_after_end(o, RepeatMode::One, seed) == o,
        plays_on(o, RepeatMode::One, seed),
{
}

impl App {
    /// Goes on after a medium has ended, whose resume position is forgotten. Says
    /// whether there is an entry to open; else the session ends.
    pub fn end_of_media(&mut self, duration_us: i64) -> (open: bool)
        requires
            old(self).wf(),
        ensures
            final(self).wf(),
            exists|seed: u64|
                seed != 0 && final(self).playlist@ == #[trigger] order_after_end(
                    old(self).playlist@,
                    old(self).repeat_mode,
                    seed,
                ) && open == plays_on(old(self).playlist@, old(self).repeat_mode, seed),
            final(self).settings.resume_positions@ == (match old(self).current_source {
                Some(source) => old(self).settings.resume_positions@.remove(source@),
                None => old(self).settings.resume_positions@,
            }),
            *final(self) == (App {
                playlist: final(self).playlist,
                settings: Settings {
                    resume_positions: final(self).settings.resume_positions,
                    ..old(self).settings
                },
                ..*old(self)
            }),
    {
        let ghost o = self.playlist@;
        let ghost mode = self.repeat_mode;
        let least: i64 = if duration_us > 1 {
            duration_us
        } else {
            1
        };
        if let Some(source) = &self.current_source {
            self.settings.remember_position(source.as_str(), duration_us, least);
        }
        match self.repeat_mode {
            RepeatMode::One => {
                assert(order_after_end(o, mode, 1u64) == o);
                true
            },
            RepeatMode::All => {
                let ghost before = self.playlist@;
                let found: bool = self.playlist.advance().is_some();
                let ghost s = choose|s: u64|
                    s != 0 && self.playlist@ == #[trigger] advanced(before, s) && (found
                        <==> forward(before, s) is Some);
                if !found {
                    let _ = self.playlist.select(0);
                }
                assert(order_after_end(o, mode, s) == self.playlist@);
                true
            },
            RepeatMode::Off => {
                let ghost before = self.playlist@;
                let found: bool = self.playlist.advance().is_some();
                let ghost s = choose|s: u64|
                    s != 0 && self.playlist@ == #[trigger] advanced(before, s) && (found
                        <==> forward(before, s) is Some);
                assert(order_after_end(o, mode, s) == self.playlist@);
                found
            },
        }
    }
}

// ---- Laws ------------------------------------------------------------------

/// A colour is made of its three parts, the red one worth the most; what lies above
/// them does not count.
pub proof fn law_color_is_made_of_its_parts(rgb: u32)
    ensures
        ({
            let c = color_of(rgb);
            (c.red * 256 + c.green) * 256 + c.blue == rgb as int % 0x100_0000
        }),
{
}

/// The position that is shown never lies behind the length, where that is known,
/// and else is the position itself.
pub proof fn law_shown_position_is_within_the_length(position: i64, duration: i64)
    ensures
        duration > 0 ==> shown_position(position, duration) <= duration,
        position <= duration || duration <= 0 ==> shown_position(position, duration) == position,
        duration > 0 && position > duration ==> shown_position(position, duration) == duration,
{
}

/// The colour that the user has chosen goes before that of the style, and without
/// either the text is white.
pub proof fn law_chosen_color_comes_first(chosen: u32, style: Option<u32>, other: u32)
    ensures
        subtitle_color(Some(chosen), style) == color_of(chosen),
        subtitle_color(None, Some(other)) == color_of(other),
        subtitle_color(None, None) == color_of(0xff_ffff),
{
}

/// In order, after the last entry a list that is repeated begins anew and one that
/// is not comes to its end; before that the next entry follows either way.
pub proof fn law_what_follows_the_last_entry(o: Order, c: usize, seed: u64)
    requires
        is_valid(o),
        !o.shuffle,
        o.items.len() <= usize::MAX,
        o.current == Some(c),
    ensures
        c + 1 == o.items.len() ==> {
            &&& order_after_end(o, RepeatMode::All, seed).current == Some(0usize)
            &&& plays_on(o, RepeatMode::All, seed)
            &&& order_after_end(o, RepeatMode::Off, seed) == o
            &&& !plays_on(o, RepeatMode::Off, seed)
        },
        c + 1 < o.items.len() ==> {
            &&& order_after_end(o, RepeatMode::All, seed).current == Some((c + 1) as usize)
            &&& order_after_end(o, RepeatMode::Off, seed).current == Some((c + 1) as usize)
            &&& plays_on(o, RepeatMode::Off, seed)
        },
{
}

/// What a count has grown by, added to what it was, is what it is.
pub proof fn law_growth_adds_up(now: u64, before: u64)
    ensures
        before <= now ==> before + grown_by(now, before) == now,
        before > now ==> grown_by(now, before) == 0,
{
}

} // verus!
