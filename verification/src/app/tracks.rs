//! Choosing among audio tracks, subtitles and audio outputs.

use super::marks::{list_place, place_in_list};
use super::session::App;
use crate::decoder::DemuxCommand;
use crate::number::{decimal, write_decimal};
use crate::opensubtitles::{Request, find, search_url};
use crate::player::engine::PlayerEngine;
use crate::player::state::{SharedState, TrackInfo, track_label};
use crate::settings::names;
use crate::subtitles::track::{SubtitleTrack, is_sorted};
use crate::text::{from_chars, push_all, push_text, to_chars, trim};
use crate::utils::{display_name, name_of};
use vstd::prelude::*;

verus! {

/// The streams behind tracks.
pub open spec fn streams_of(tracks: Seq<TrackInfo>) -> Seq<usize> {
    Seq::new(tracks.len(), |i: int| tracks[i].stream_index)
}

/// What the menus call tracks.
pub open spec fn track_names(tracks: Seq<TrackInfo>) -> Seq<Seq<char>> {
    Seq::new(tracks.len(), |i: int| track_label(tracks[i]@, i))
}

/// The place in the menu that is chosen again: what was remembered, where it is
/// one of those after the first, up to `last`.
pub open spec fn restored(pending: Option<i32>, last: int) -> int {
    match pending {
        Some(i) => if 0 < i <= last {
            i as int
        } else {
            0
        },
        None => 0,
    }
}

/// The next place of a menu with `count` places, after the last the first.
pub open spec fn next_place(place: i32, count: int) -> int {
    (place + 1) % count
}

/// What choosing a place of the menu of subtitles asks for: its first place stands for
/// none, and a place that it does not have for nothing.
pub open spec fn chosen_subtitles(streams: Seq<usize>, place: i32) -> Option<Option<usize>> {
    if place <= 0 {
        Some(None)
    } else if place <= streams.len() {
        Some(Some(streams[place - 1]))
    } else {
        None
    }
}

/// A menu of tracks that has changed: their names, the place that is chosen, and
/// the stream behind it where it has to be selected.
#[derive(Debug)]
pub struct TrackMenu {
    pub labels: Vec<String>,
    pub index: i32,
    pub stream: Option<usize>,
}

/// The streams behind tracks.
fn list_streams(tracks: &Vec<TrackInfo>) -> (r: Vec<usize>)
    ensures
        r@ == streams_of(tracks@),
{
    let mut out: Vec<usize> = Vec::new();
    let mut i: usize = 0;
    while i < tracks.len()
        invariant
            i <= tracks@.len(),
            out@ == streams_of(tracks@).take(i as int),
        decreases tracks@.len() - i,
    {
        out.push(tracks[i].stream_index);
        assert(out@ =~= streams_of(tracks@).take(i + 1));
        i = i + 1;
    }
    assert(out@ =~= streams_of(tracks@));
    out
}

/// Adds to `out` what the menus call tracks.
fn push_track_labels(out: &mut Vec<String>, tracks: &Vec<TrackInfo>)
    ensures
        names(final(out)@) == names(old(out)@) + track_names(tracks@),
{
    let ghost given = names(out@);
    let mut i: usize = 0;
    assert(names(out@) =~= given + track_names(tracks@).take(0));
    while i < tracks.len()
        invariant
            i <= tracks@.len(),
            names(out@) == given + track_names(tracks@).take(i as int),
        decreases tracks@.len() - i,
    {
        let ghost before = names(out@);
        out.push(tracks[i].label(i));
        assert(names(out@) =~= before.push(track_label(tracks@[i as int]@, i as int)));
        assert(names(out@) =~= given + track_names(tracks@).take(i + 1));
        i = i + 1;
    }
    assert(track_names(tracks@).take(i as int) =~= track_names(tracks@));
}

/// What the menus call tracks.
pub fn track_labels(tracks: &Vec<TrackInfo>) -> (r: Vec<String>)
    ensures
        names(r@) == track_names(tracks@),
{
    let mut out: Vec<String> = Vec::new();
    push_track_labels(&mut out, tracks);
    assert(names(out@) =~= track_names(tracks@));
    out
}

/// The place in the menu that is chosen again.
fn restore_place(pending: Option<i32>, last: usize) -> (r: i32)
    ensures
        r == restored(pending, last as int),
{
    match pending {
        Some(i) => {
            if i > 0 && i as usize <= last {
                i
            } else {
                0
            }
        },
        None => 0,
    }
}

impl App {
    /// Takes note of the audio tracks. Where their number has changed, gives the
    /// new menu: the track with which the medium was left is chosen again, or
    /// else the first one.
    pub fn refresh_audio_tracks(&mut self, tracks: &Vec<TrackInfo>) -> (r: Option<TrackMenu>)
        ensures
            r is Some <==> tracks@.len() != old(self).audio_track_streams@.len(),
            r is None ==> *final(self) == *old(self),
            r matches Some(menu) ==> {
                &&& names(menu.labels@) == track_names(tracks@)
                &&& menu.index == restored(old(self).pending_audio_track, tracks@.len() - 1)
                &&& menu.stream == (if menu.index > 0 {
                    Some(tracks@[menu.index as int].stream_index)
                } else {
                    None
                })
                &&& final(self).audio_track_streams@ == streams_of(tracks@)
                &&& *final(self) == (App {
                    audio_track_streams: final(self).audio_track_streams,
                    pending_audio_track: None,
                    ..*old(self)
                })
            },
    {
        let n: usize = tracks.len();
        if n == self.audio_track_streams.len() {
            return None;
        }
        self.audio_track_streams = list_streams(tracks);
        let index: i32 = if n == 0 {
            0
        } else {
            restore_place(self.pending_audio_track, n - 1)
        };
        self.pending_audio_track = None;
        let stream: Option<usize> = if index > 0 {
            Some(self.audio_track_streams[index as usize])
        } else {
            None
        };
        Some(TrackMenu { labels: track_labels(tracks), index, stream })
    }

    /// Takes note of the subtitle tracks. Where their number has changed, gives
    /// the new menu, whose first place stands for none: the track with which the
    /// medium was left is chosen again, or else none.
    pub fn refresh_subtitle_tracks(&mut self, tracks: &Vec<TrackInfo>) -> (r: Option<TrackMenu>)
        ensures
            r is Some <==> tracks@.len() != old(self).subtitle_track_streams@.len(),
            r is None ==> *final(self) == *old(self),
            r matches Some(menu) ==> {
                &&& names(menu.labels@) == seq!["Désactivés"@] + track_names(tracks@)
                &&& menu.index == restored(old(self).pending_subtitle_track, tracks@.len() as int)
                &&& menu.stream == (if menu.index > 0 {
                    Some(tracks@[menu.index - 1].stream_index)
                } else {
                    None
                })
                &&& final(self).subtitle_track_streams@ == streams_of(tracks@)
                &&& *final(self) == (App {
                    subtitle_track_streams: final(self).subtitle_track_streams,
                    pending_subtitle_track: None,
                    ..*old(self)
                })
            },
    {
        let n: usize = tracks.len();
        if n == self.subtitle_track_streams.len() {
            return None;
        }
        self.subtitle_track_streams = list_streams(tracks);
        let mut labels: Vec<String> = Vec::new();
        labels.push("Désactivés".to_owned());
        assert(names(labels@) =~= seq!["Désactivés"@]);
        push_track_labels(&mut labels, tracks);
        let index: i32 = restore_place(self.pending_subtitle_track, n);
        self.pending_subtitle_track = None;
        let stream: Option<usize> = if index > 0 {
            Some(self.subtitle_track_streams[index as usize - 1])
        } else {
            None
        };
        Some(TrackMenu { labels, index, stream })
    }

    /// The command that chooses the audio track at that place of the menu.
    pub fn select_audio_track(&self, engine: &PlayerEngine, combo_index: i32) -> (r: Option<
        DemuxCommand,
    >)
        ensures
            r == (if list_place(combo_index) < self.audio_track_streams@.len() {
                Some(
                    DemuxCommand::SelectAudioTrack(
                        self.audio_track_streams@[list_place(combo_index)],
                    ),
                )
            } else {
                None
            }),
    {
        let place: usize = place_in_list(combo_index);
        if place < self.audio_track_streams.len() {
            Some(engine.select_audio_track(self.audio_track_streams[place]))
        } else {
            None
        }
    }

    /// The command that chooses the subtitle track at that place of the menu,
    /// whose first place stands for none. A track of the medium replaces the
    /// subtitles from a file.
    pub fn select_subtitle_track(&self, engine: &mut PlayerEngine, combo_index: i32) -> (r: Option<
        DemuxCommand,
    >)
        ensures
            r == (if combo_index <= 0 {
                Some(DemuxCommand::SelectSubtitleTrack(None))
            } else if combo_index <= self.subtitle_track_streams@.len() {
                Some(
                    DemuxCommand::SelectSubtitleTrack(
                        Some(self.subtitle_track_streams@[combo_index - 1]),
                    ),
                )
            } else {
                None
            }),
            r == (match chosen_subtitles(self.subtitle_track_streams@, combo_index) {
                Some(stream) => Some(DemuxCommand::SelectSubtitleTrack(stream)),
                None => None,
            }),
            final(engine).shared == (if 0 < combo_index <= self.subtitle_track_streams@.len() {
                SharedState { external_subtitles: None, ..old(engine).shared }
            } else {
                old(engine).shared
            }),
    {
        if combo_index <= 0 {
            Some(engine.select_subtitle_track(None))
        } else if combo_index as usize <= self.subtitle_track_streams.len() {
            engine.shared.external_subtitles = None;
            Some(
                engine.select_subtitle_track(
                    Some(self.subtitle_track_streams[combo_index as usize - 1]),
                ),
            )
        } else {
            None
        }
    }

    /// The next audio track of the menu, after the last one the first, and what
    /// to tell the user; nothing where there is no choice.
    pub fn cycle_audio_track(&self, index: i32) -> (r: Option<(i32, String)>)
        requires
            self.audio_track_streams@.len() <= i32::MAX,
        ensures
            ({
                let count = self.audio_track_streams@.len() as int;
                &&& r is Some <==> count > 1
                &&& r matches Some((next, status)) ==> next == next_place(index, count)
                    && status@ == "Piste audio "@ + decimal((next + 1) as nat) + "/"@ + decimal(
                    count as nat,
                )
            }),
    {
        let count: i64 = self.audio_track_streams.len() as i64;
        if count <= 1 {
            return None;
        }
        let next: i32 = step_place(index, count);
        let mut out = to_chars("Piste audio ");
        let number = write_decimal((next as i64 + 1) as u64);
        push_all(&mut out, &number);
        push_text(&mut out, "/");
        let total = write_decimal(count as u64);
        push_all(&mut out, &total);
        Some((next, from_chars(&out)))
    }

    /// The next place of the menu of subtitles, which begins with none, and what
    /// to tell the user; nothing where there is no track.
    pub fn cycle_subtitle_track(&self, index: i32) -> (r: Option<(i32, String)>)
        requires
            self.subtitle_track_streams@.len() < i32::MAX,
        ensures
            ({
                let count = self.subtitle_track_streams@.len() as int + 1;
                &&& r is Some <==> count > 1
                &&& r matches Some((next, status)) ==> next == next_place(index, count)
                    && status@ == (if next == 0 {
                    "Sous-titres désactivés"@
                } else {
                    "Sous-titres : piste "@ + decimal(next as nat) + "/"@ + decimal(
                        (count - 1) as nat,
                    )
                })
            }),
    {
        let count: i64 = self.subtitle_track_streams.len() as i64 + 1;
        if count <= 1 {
            return None;
        }
        let next: i32 = step_place(index, count);
        if next == 0 {
            return Some((next, "Sous-titres désactivés".to_owned()));
        }
        let mut out = to_chars("Sous-titres : piste ");
        let number = write_decimal(next as u64);
        push_all(&mut out, &number);
        push_text(&mut out, "/");
        let total = write_decimal((count - 1) as u64);
        push_all(&mut out, &total);
        Some((next, from_chars(&out)))
    }

    /// The name of the audio output at that place of the menu.
    pub fn select_audio_device(&self, combo_index: i32) -> (r: Option<String>)
        ensures
            r is Some <==> list_place(combo_index) < self.audio_device_names@.len(),
            r matches Some(name) ==> name@ == self.audio_device_names@[list_place(combo_index)]@,
    {
        let place: usize = place_in_list(combo_index);
        if place < self.audio_device_names.len() {
            Some(self.audio_device_names[place].clone())
        } else {
            None
        }
    }

    /// The request that looks for subtitles of the medium online, or what to tell
    /// the user where there is none to send.
    pub fn search_online_subtitles(&self) -> (r: Result<Request, &'static str>)
        ensures
            match self.current_source {
                None => r matches Err(s) && s@ == "Ouvrez d'abord un média"@,
                Some(source) => if trim(self.settings.opensubtitles_api_key@).len() == 0 {
                    r matches Err(s) && s@ == "Clé d'API OpenSubtitles non configurée (paramètres)"@
                } else {
                    r matches Ok(request) && (request matches Request::Search { url } && url@
                        == search_url(name_of(source@), self.settings.subtitle_language@))
                },
            },
    {
        let source: &String = match &self.current_source {
            Some(s) => s,
            None => return Err("Ouvrez d'abord un média"),
        };
        let query = display_name(source.as_str());
        match find(
            query.as_str(),
            self.settings.subtitle_language.as_str(),
            self.settings.opensubtitles_api_key.as_str(),
        ) {
            Some(request) => Ok(request),
            None => Err("Clé d'API OpenSubtitles non configurée (paramètres)"),
        }
    }
}

/// The next place of a menu.
fn step_place(index: i32, count: i64) -> (r: i32)
    requires
        1 < count <= i32::MAX,
    ensures
        r == next_place(index, count as int),
        0 <= r < count,
{
    let sum: i64 = index as i64 + 1;
    match sum.checked_rem_euclid(count) {
        Some(rest) => rest as i32,
        None => 0,
    }
}

/// Gives a session subtitles that are not its own.
pub fn attach_subtitles(engine: &mut PlayerEngine, track: SubtitleTrack)
    requires
        old(engine).shared.wf(),
        is_sorted(track@),
    ensures
        final(engine).shared.wf(),
        final(engine).shared == (SharedState {
            external_subtitles: Some(track),
            ..old(engine).shared
        }),
{
    engine.shared.external_subtitles = Some(track);
}

/// What is said when the subtitles of a file are loaded.
pub fn loaded_status(count: usize) -> (r: String)
    ensures
        r@ == decimal(count as nat) + " sous-titres chargés"@,
{
    let mut out = write_decimal(count as u64);
    push_text(&mut out, " sous-titres chargés");
    from_chars(&out)
}

/// What is said when subtitles were looked for online.
pub fn downloaded_status(count: Option<usize>) -> (r: String)
    ensures
        r@ == (match count {
            Some(n) => decimal(n as nat) + " sous-titres téléchargés"@,
            None => "Aucun sous-titre trouvé en ligne"@,
        }),
{
    match count {
        Some(n) => {
            let mut out = write_decimal(n as u64);
            push_text(&mut out, " sous-titres téléchargés");
            from_chars(&out)
        },
        None => "Aucun sous-titre trouvé en ligne".to_owned(),
    }
}

// ---- Laws ------------------------------------------------------------------

/// Going to the next place of a menu leads through all of them and from the last to
/// the first.
pub proof fn law_menu_goes_round(place: i32, count: int)
    requires
        0 <= place < count,
    ensures
        place + 1 < count ==> next_place(place, count) == place + 1,
        place + 1 == count ==> next_place(place, count) == 0,
{
    if place + 1 < count {
        vstd::arithmetic::div_mod::lemma_small_mod((place + 1) as nat, count as nat);
    } else {
        vstd::arithmetic::div_mod::lemma_mod_self_0(count);
    }
}

/// A place that was remembered is taken again where the menu still has it, and else
/// the first one.
pub proof fn law_remembered_place_is_taken_again(place: i32, last: int)
    requires
        0 <= last,
    ensures
        0 <= place <= last ==> restored(Some(place), last) == place,
        !(0 <= place <= last) ==> restored(Some(place), last) == 0,
        restored(None, last) == 0,
{
}

/// Below the first place of the menu of subtitles, which turns them off, stand the tracks
/// in their order, and going round the menu leads to each of them.
pub proof fn law_menu_of_subtitles(streams: Seq<usize>, i: int)
    requires
        0 <= i < streams.len() < i32::MAX,
    ensures
        chosen_subtitles(streams, 0) == Some(None::<usize>),
        chosen_subtitles(streams, (i + 1) as i32) == Some(Some(streams[i])),
        chosen_subtitles(streams, (streams.len() + 1) as i32) is None,
        chosen_subtitles(streams, next_place(i as i32, streams.len() + 1int) as i32) == Some(
            Some(streams[i]),
        ),
        chosen_subtitles(streams, next_place(streams.len() as i32, streams.len() + 1int) as i32)
            == Some(None::<usize>),
{
    law_menu_goes_round(i as i32, streams.len() + 1int);
    law_menu_goes_round(streams.len() as i32, streams.len() + 1int);
}

/// The menus list the tracks in their order, each under its own name and with its own
/// stream.
pub proof fn law_menus_list_the_tracks(tracks: Seq<TrackInfo>, i: int)
    requires
        0 <= i < tracks.len(),
    ensures
        streams_of(tracks).len() == tracks.len() && track_names(tracks).len() == tracks.len(),
        streams_of(tracks)[i] == tracks[i].stream_index,
        track_names(tracks)[i] == track_label(tracks[i]@, i),
{
}

} // verus!
