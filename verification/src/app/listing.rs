//! What the controls of the playlist do.

use super::filter::{law_shown_places_ascend, shown_places, visible_entries};
use super::groups::{has_group, is_strictly_sorted, list_groups};
use super::session::App;
use crate::number::{decimal, write_decimal};
use crate::playlist::item::{Entry, PlaylistItem, bare_entry, entries};
use crate::playlist::m3u::{m3u_entries, parse_m3u_content, path_text};
use crate::playlist::order::{Order, fresh_history, is_valid, removed, selected, shifted};
use crate::settings::{Settings, names, toggled};
use crate::streaming::{StreamKind, is_hls_text, is_url_chars, is_url_text, kind_of, looks_like_hls};
use crate::text::{
    contains, from_chars, glue, has_prefix, has_text, lowercase, lowered, push_text, starts_with,
    to_chars, trim, trimmed,
};
use crate::utils::{display_name, name_of};
use vstd::prelude::*;

verus! {

/// An entry as the interface shows it.
#[derive(Debug)]
pub struct PlaylistRow {
    pub title: String,
    pub is_current: bool,
    pub is_favorite: bool,
    /// URL of the logo, empty where there is none.
    pub logo: String,
}

/// What came of fetching an M3U text.
#[derive(Debug)]
pub enum M3uFetch {
    /// It is a stream: its URL is played.
    Stream(String),
    /// It is a list of channels.
    Channels(Vec<PlaylistItem>),
    /// It could not be fetched, with the reason.
    Failed(String),
}

/// What to do with a URL that the user has entered.
#[derive(Debug, Clone, Copy, PartialEq, Eq, Structural)]
pub enum UrlAction {
    /// There is none.
    Ignore,
    /// It is no URL that can be played.
    Reject,
    /// It may be a list of channels: fetch it and see.
    Fetch,
    /// It is played.
    Play,
}

/// The entries for sources of which nothing else is known.
pub open spec fn bare_entries(sources: Seq<String>) -> Seq<Entry> {
    Seq::new(sources.len(), |i: int| bare_entry(sources[i]@))
}

/// Whether `groups` are the categories of the entries, sorted, each of them once.
pub open spec fn lists_groups(groups: Seq<Seq<char>>, items: Seq<Entry>) -> bool {
    &&& is_strictly_sorted(groups)
    &&& forall|g: Seq<char>| #[trigger]
        groups.contains(g) <==> g.len() > 0 && has_group(items, g)
}

/// What to do with a URL.
pub open spec fn url_action(url: Seq<char>) -> UrlAction {
    let u = trim(url);
    if u.len() == 0 {
        UrlAction::Ignore
    } else if !is_url_text(u) && !starts_with(u, "bluray:"@) {
        UrlAction::Reject
    } else if contains(lowered(u), ".m3u"@) {
        UrlAction::Fetch
    } else {
        UrlAction::Play
    }
}

/// The playlist with an entry more, under the cursor.
pub open spec fn with_entry(o: Order, e: Entry) -> Order {
    selected(Order { items: o.items.push(e), ..o }, o.items.len() as int)
}

/// What came of fetching an M3U text: a stream where it is one, and where it
/// names nothing; else a list of channels.
pub fn classify_m3u(url: &str, content: Result<String, String>) -> (r: M3uFetch)
    ensures
        match (content, r) {
            (Ok(text), M3uFetch::Stream(u)) => u@ == url@ && (is_hls_text(text@) || m3u_entries(
                text@,
                None,
            ).len() == 0),
            (Ok(text), M3uFetch::Channels(items)) => !is_hls_text(text@) && items@.len() > 0
                && entries(items@) == m3u_entries(text@, None),
            (Err(e), M3uFetch::Failed(f)) => f == e,
            _ => false,
        },
{
    match content {
        Ok(text) => {
            if looks_like_hls(text.as_str()) {
                return M3uFetch::Stream(url.to_owned());
            }
            let items = parse_m3u_content(text.as_str(), None);
            assert(entries(items@).len() == items@.len());
            if items.len() == 0 {
                M3uFetch::Stream(url.to_owned())
            } else {
                M3uFetch::Channels(items)
            }
        },
        Err(e) => M3uFetch::Failed(e),
    }
}

impl App {
    /// The places of the entries that the filter lets through.
    pub open spec fn shown(&self) -> Seq<usize> {
        shown_places(
            self.playlist@.items,
            self.playlist@.items.len(),
            names(self.settings.favorites@),
            self.playlist_search@,
            self.playlist_group@,
            self.playlist_favorites_only,
        )
    }

    /// Finds the entries to show.
    pub fn refresh_playlist_model(&mut self)
        ensures
            final(self).playlist_visible@ == old(self).shown(),
            *final(self) == (App {
                playlist_visible: final(self).playlist_visible,
                ..*old(self)
            }),
    {
        self.playlist_visible = visible_entries(
            self.playlist.items(),
            &self.settings,
            self.playlist_search.as_str(),
            self.playlist_group.as_str(),
            self.playlist_favorites_only,
        );
    }

    /// The rows to show, one for each entry that the filter lets through.
    pub fn playlist_rows(&self) -> (r: Vec<PlaylistRow>)
        requires
            self.playlist_visible@ == self.shown(),
        ensures
            r@.len() == self.playlist_visible@.len(),
            forall|i: int|
                0 <= i < r@.len() ==> {
                    let place = self.playlist_visible@[i];
                    let e = self.playlist@.items[place as int];
                    &&& (#[trigger] r@[i]).title@ == e.title
                    &&& r@[i].is_current == (self.playlist@.current == Some(place))
                    &&& r@[i].is_favorite == names(self.settings.favorites@).contains(e.source)
                    &&& r@[i].logo@ == e.logo
                },
    {
        let items = self.playlist.items();
        let ghost all = entries(items@);
        let n: usize = items.len();
        proof {
            law_shown_places_ascend(
                all,
                all.len(),
                names(self.settings.favorites@),
                self.playlist_search@,
                self.playlist_group@,
                self.playlist_favorites_only,
            );
        }
        let mut out: Vec<PlaylistRow> = Vec::new();
        let mut i: usize = 0;
        while i < self.playlist_visible.len()
            invariant
                i <= self.playlist_visible@.len(),
                out@.len() == i,
                all == entries(items@),
                all == self.playlist@.items,
                forall|k: int|
                    0 <= k < self.playlist_visible@.len() ==> (
                    #[trigger] self.playlist_visible@[k]) < items@.len(),
                forall|k: int|
                    0 <= k < i ==> {
                        let place = self.playlist_visible@[k];
                        let e = self.playlist@.items[place as int];
                        &&& (#[trigger] out@[k]).title@ == e.title
                        &&& out@[k].is_current == (self.playlist@.current == Some(place))
                        &&& out@[k].is_favorite == names(self.settings.favorites@).contains(
                            e.source,
                        )
                        &&& out@[k].logo@ == e.logo
                    },
            decreases self.playlist_visible@.len() - i,
        {
            let place: usize = self.playlist_visible[i];
            assert(all[place as int] == items@[place as int]@);
            let item = &items[place];
            let is_current: bool = match self.playlist.current_index() {
                Some(c) => c == place,
                None => false,
            };
            out.push(
                PlaylistRow {
                    title: item.title.clone(),
                    is_current,
                    is_favorite: self.settings.is_favorite(item.source.as_str()),
                    logo: item.logo.clone(),
                },
            );
            i = i + 1;
        }
        out
    }

    /// Finds the categories to choose from.
    pub fn refresh_playlist_groups(&mut self)
        ensures
            lists_groups(names(final(self).playlist_groups@), old(self).playlist@.items),
            *final(self) == (App {
                playlist_groups: final(self).playlist_groups,
                ..*old(self)
            }),
    {
        self.playlist_groups = list_groups(self.playlist.items());
    }

    /// The names of the categories, after one that stands for all.
    pub fn group_labels(&self) -> (r: Vec<String>)
        ensures
            names(r@) == seq!["Toutes les catégories"@] + names(self.playlist_groups@),
    {
        let mut out: Vec<String> = Vec::new();
        out.push("Toutes les catégories".to_owned());
        let mut i: usize = 0;
        assert(names(out@) =~= seq!["Toutes les catégories"@] + names(
            self.playlist_groups@.take(0),
        ));
        while i < self.playlist_groups.len()
            invariant
                i <= self.playlist_groups@.len(),
                names(out@) == seq!["Toutes les catégories"@] + names(
                    self.playlist_groups@.take(i as int),
                ),
            decreases self.playlist_groups@.len() - i,
        {
            let ghost before = names(out@);
            out.push(self.playlist_groups[i].clone());
            assert(names(out@) =~= before.push(self.playlist_groups@[i as int]@));
            assert(names(self.playlist_groups@.take(i + 1)) =~= names(
                self.playlist_groups@.take(i as int),
            ).push(self.playlist_groups@[i as int]@));
            assert(names(out@) =~= seq!["Toutes les catégories"@] + names(
                self.playlist_groups@.take(i + 1),
            ));
            i = i + 1;
        }
        assert(self.playlist_groups@.take(i as int) =~= self.playlist_groups@);
        out
    }

    /// The names of what was played last.
    pub fn recent_labels(&self) -> (r: Vec<String>)
        ensures
            r@.len() == self.settings.history@.len(),
            forall|i: int| 0 <= i < r@.len() ==> (#[trigger] r@[i])@ == name_of(
                self.settings.history@[i]@,
            ),
    {
        let mut out: Vec<String> = Vec::new();
        let mut i: usize = 0;
        while i < self.settings.history.len()
            invariant
                i <= self.settings.history@.len(),
                out@.len() == i,
                forall|k: int| 0 <= k < i ==> (#[trigger] out@[k])@ == name_of(
                    self.settings.history@[k]@,
                ),
            decreases self.settings.history@.len() - i,
        {
            out.push(display_name(self.settings.history[i].as_str()));
            i = i + 1;
        }
        out
    }

    /// Adds sources. Where nothing is open, the first of them is put under the
    /// cursor, to be opened. Says whether that is so.
    pub fn add_sources(&mut self, sources: &Vec<String>, open: bool) -> (play: bool)
        requires
            old(self).wf(),
        ensures
            final(self).wf(),
            play == (sources@.len() > 0 && !open),
            sources@.len() == 0 ==> *final(self) == *old(self),
            sources@.len() > 0 ==> {
                let added = Order {
                    items: old(self).playlist@.items + bare_entries(sources@),
                    ..old(self).playlist@
                };
                &&& final(self).playlist@ == (if open {
                    added
                } else {
                    selected(added, old(self).playlist@.items.len() as int)
                })
                &&& lists_groups(names(final(self).playlist_groups@), added.items)
                &&& final(self).playlist_visible@ == final(self).shown()
                &&& *final(self) == (App {
                    playlist: final(self).playlist,
                    playlist_groups: final(self).playlist_groups,
                    playlist_visible: final(self).playlist_visible,
                    ..*old(self)
                })
            },
    {
        if sources.len() == 0 {
            return false;
        }
        let first: usize = self.playlist.len();
        let ghost o = self.playlist@;
        let mut i: usize = 0;
        assert(o.items + bare_entries(sources@.take(0)) =~= o.items);
        while i < sources.len()
            invariant
                i <= sources@.len(),
                o == old(self).playlist@,
                is_valid(self.playlist@),
                self.playlist@ == (Order {
                    items: o.items + bare_entries(sources@.take(i as int)),
                    ..o
                }),
                *self == (App { playlist: self.playlist, ..*old(self) }),
            decreases sources@.len() - i,
        {
            let ghost before = self.playlist@.items;
            let _ = self.playlist.add(PlaylistItem::new(sources[i].as_str()));
            assert(before.push(bare_entry(sources@[i as int]@)) =~= o.items + bare_entries(
                sources@.take(i + 1),
            ));
            i = i + 1;
        }
        assert(sources@.take(i as int) =~= sources@);
        self.refresh_playlist_groups();
        self.refresh_playlist_model();
        if open {
            false
        } else {
            let _ = self.playlist.select(first);
            true
        }
    }

    /// Adds an entry and puts it under the cursor, to be opened.
    fn play_new(&mut self, source: &str)
        requires
            old(self).wf(),
        ensures
            final(self).wf(),
            final(self).playlist@ == with_entry(old(self).playlist@, bare_entry(source@)),
            final(self).playlist_visible@ == final(self).shown(),
            *final(self) == (App {
                playlist: final(self).playlist,
                playlist_visible: final(self).playlist_visible,
                ..*old(self)
            }),
    {
        let index: usize = self.playlist.add(PlaylistItem::new(source));
        let _ = self.playlist.select(index);
        self.refresh_playlist_model();
    }

    /// Takes a URL that the user has entered. Says what to do with it; where it
    /// is played it is under the cursor, to be opened, and where it is fetched
    /// it stands beside.
    pub fn open_url(&mut self, url: &str) -> (r: (UrlAction, String))
        requires
            old(self).wf(),
        ensures
            final(self).wf(),
            r.0 == url_action(url@),
            r.1@ == trim(url@),
            r.0 == UrlAction::Play ==> {
                &&& final(self).playlist@ == with_entry(
                    old(self).playlist@,
                    bare_entry(trim(url@)),
                )
                &&& final(self).playlist_visible@ == final(self).shown()
                &&& *final(self) == (App {
                    playlist: final(self).playlist,
                    playlist_visible: final(self).playlist_visible,
                    ..*old(self)
                })
            },
            r.0 != UrlAction::Play ==> *final(self) == *old(self),
    {
        let chars = to_chars(url);
        let u = trimmed(&chars);
        let text = from_chars(u);
        if u.len() == 0 {
            return (UrlAction::Ignore, text);
        }
        if !is_url_chars(u) && !has_prefix(u, "bluray:") {
            return (UrlAction::Reject, text);
        }
        let low = lowercase(u);
        if has_text(&low, ".m3u") {
            return (UrlAction::Fetch, text);
        }
        self.play_new(text.as_str());
        (UrlAction::Play, text)
    }

    /// Takes what came of fetching an M3U text. Says whether there is an entry
    /// to open, and what to tell the user. The list is shown where channels were
    /// loaded.
    pub fn take_m3u(&mut self, result: M3uFetch) -> (r: (bool, Option<String>))
        requires
            old(self).wf(),
        ensures
            final(self).wf(),
            match result {
                M3uFetch::Stream(url) => {
                    &&& r.0 && r.1 is None
                    &&& final(self).playlist@ == with_entry(
                        old(self).playlist@,
                        bare_entry(url@),
                    )
                    &&& final(self).playlist_visible@ == final(self).shown()
                    &&& *final(self) == (App {
                        playlist: final(self).playlist,
                        playlist_visible: final(self).playlist_visible,
                        ..*old(self)
                    })
                },
                M3uFetch::Channels(items) => {
                    let added = Order {
                        items: old(self).playlist@.items + entries(items@),
                        ..old(self).playlist@
                    };
                    &&& r.0 == (items@.len() > 0)
                    &&& r.1 matches Some(s) && s@ == decimal(items@.len())
                        + " chaînes chargées"@
                    &&& final(self).playlist@ == selected(
                        added,
                        old(self).playlist@.items.len() as int,
                    )
                    &&& lists_groups(names(final(self).playlist_groups@), added.items)
                    &&& final(self).playlist_visible@ == final(self).shown()
                    &&& *final(self) == (App {
                        playlist: final(self).playlist,
                        playlist_groups: final(self).playlist_groups,
                        playlist_visible: final(self).playlist_visible,
                        ..*old(self)
                    })
                },
                M3uFetch::Failed(e) => !r.0 && (r.1 matches Some(s) && s@ == "Playlist illisible : "@
                    + e@) && *final(self) == *old(self),
            },
    {
        match result {
            M3uFetch::Stream(url) => {
                self.play_new(url.as_str());
                (true, None)
            },
            M3uFetch::Channels(items) => {
                let count: usize = items.len();
                let first: usize = self.playlist.len();
                let ghost o = self.playlist@;
                let mut i: usize = 0;
                assert(o.items + entries(items@.take(0)) =~= o.items);
                while i < items.len()
                    invariant
                        i <= items@.len(),
                        o == old(self).playlist@,
                        is_valid(self.playlist@),
                        self.playlist@ == (Order {
                            items: o.items + entries(items@.take(i as int)),
                            ..o
                        }),
                        *self == (App { playlist: self.playlist, ..*old(self) }),
                    decreases items@.len() - i,
                {
                    let ghost before = self.playlist@.items;
                    let _ = self.playlist.add(items[i].clone());
                    assert(before.push(items@[i as int]@) =~= o.items + entries(
                        items@.take(i + 1),
                    ));
                    i = i + 1;
                }
                assert(items@.take(i as int) =~= items@);
                self.refresh_playlist_groups();
                self.refresh_playlist_model();
                let open: bool = self.playlist.select(first).is_some();
                let mut out = write_decimal(count as u64);
                push_text(&mut out, " chaînes chargées");
                (open, Some(from_chars(&out)))
            },
            M3uFetch::Failed(e) => (false, Some(glue("Playlist illisible : ", e.as_str()))),
        }
    }

    /// Adds what was played at that place of the history, counted from the last,
    /// and puts it under the cursor. Says whether there is such an entry.
    pub fn open_recent(&mut self, index: i32) -> (open: bool)
        requires
            old(self).wf(),
        ensures
            final(self).wf(),
            ({
                let place = if index < 0 {
                    0int
                } else {
                    index as int
                };
                &&& open == (place < old(self).settings.history@.len())
                &&& !open ==> *final(self) == *old(self)
                &&& open ==> {
                    &&& final(self).playlist@ == with_entry(
                        old(self).playlist@,
                        bare_entry(old(self).settings.history@[place]@),
                    )
                    &&& final(self).playlist_visible@ == final(self).shown()
                    &&& *final(self) == (App {
                        playlist: final(self).playlist,
                        playlist_visible: final(self).playlist_visible,
                        ..*old(self)
                    })
                }
            }),
    {
        let place: usize = if index < 0 {
            0
        } else {
            index as usize
        };
        if place >= self.settings.history.len() {
            return false;
        }
        let source = self.settings.history[place].clone();
        self.play_new(source.as_str());
        true
    }

    /// Opens the entry that is shown at that place, unless it is under the
    /// cursor. Says whether there is one to open.
    pub fn playlist_activate(&mut self, index: usize) -> (open: bool)
        requires
            old(self).wf(),
        ensures
            final(self).wf(),
            open == (index < old(self).playlist_visible@.len() && {
                let place = old(self).playlist_visible@[index as int];
                place < old(self).playlist@.items.len() && old(self).playlist@.current != Some(
                    place,
                )
            }),
            !open ==> *final(self) == *old(self),
            open ==> {
                &&& final(self).playlist@ == selected(
                    old(self).playlist@,
                    old(self).playlist_visible@[index as int] as int,
                )
                &&& *final(self) == (App {
                    playlist: final(self).playlist,
                    last_channel: old(self).playlist@.current,
                    ..*old(self)
                })
            },
    {
        if index >= self.playlist_visible.len() {
            return false;
        }
        let place: usize = self.playlist_visible[index];
        let leaving: Option<usize> = self.playlist.current_index();
        let n: usize = self.playlist.len();
        let is_current: bool = match leaving {
            Some(c) => c == place,
            None => false,
        };
        if is_current || place >= n {
            return false;
        }
        let _ = self.playlist.select(place);
        self.last_channel = leaving;
        true
    }

    /// Removes the entry that is shown at that place. Says whether it was under
    /// the cursor, so that the session has to end.
    pub fn playlist_remove(&mut self, index: usize) -> (stop: bool)
        requires
            old(self).wf(),
        ensures
            final(self).wf(),
            index >= old(self).playlist_visible@.len() ==> !stop && *final(self) == *old(self),
            index < old(self).playlist_visible@.len() ==> {
                let place = old(self).playlist_visible@[index as int];
                &&& stop == (old(self).playlist@.current == Some(place))
                &&& final(self).playlist@ == removed(old(self).playlist@, place as int)
                &&& lists_groups(
                    names(final(self).playlist_groups@),
                    final(self).playlist@.items,
                )
                &&& final(self).playlist_visible@ == final(self).shown()
                &&& *final(self) == (App {
                    playlist: final(self).playlist,
                    playlist_groups: final(self).playlist_groups,
                    playlist_visible: final(self).playlist_visible,
                    ..*old(self)
                })
            },
    {
        if index >= self.playlist_visible.len() {
            return false;
        }
        let place: usize = self.playlist_visible[index];
        let stop: bool = match self.playlist.current_index() {
            Some(c) => c == place,
            None => false,
        };
        self.playlist.remove(place);
        self.refresh_playlist_groups();
        self.refresh_playlist_model();
        stop
    }

    /// Moves the entry that is shown at that place.
    pub fn playlist_shift(&mut self, index: usize, delta: i32)
        requires
            old(self).wf(),
        ensures
            final(self).wf(),
            index >= old(self).playlist_visible@.len() ==> *final(self) == *old(self),
            index < old(self).playlist_visible@.len() ==> {
                &&& final(self).playlist@ == shifted(
                    old(self).playlist@,
                    old(self).playlist_visible@[index as int] as int,
                    delta as int,
                )
                &&& final(self).playlist_visible@ == final(self).shown()
                &&& *final(self) == (App {
                    playlist: final(self).playlist,
                    playlist_visible: final(self).playlist_visible,
                    ..*old(self)
                })
            },
    {
        if index < self.playlist_visible.len() {
            let place: usize = self.playlist_visible[index];
            self.playlist.shift(place, delta);
            self.refresh_playlist_model();
        }
    }

    /// Loads an M3U text in place of the playlist; the session has to end. Says
    /// what to tell the user.
    pub fn load_playlist_from(&mut self, text: &str, base: Option<&str>) -> (status: String)
        requires
            old(self).wf(),
        ensures
            final(self).wf(),
            final(self).playlist@ == (Order {
                items: m3u_entries(text@, path_text(base)),
                current: None,
                history: seq![],
                ..old(self).playlist@
            }),
            status@ == decimal(final(self).playlist@.items.len()) + " entrées chargées"@,
            lists_groups(names(final(self).playlist_groups@), final(self).playlist@.items),
            final(self).playlist_visible@ == final(self).shown(),
            *final(self) == (App {
                playlist: final(self).playlist,
                playlist_groups: final(self).playlist_groups,
                playlist_visible: final(self).playlist_visible,
                ..*old(self)
            }),
    {
        let n: usize = self.playlist.load_m3u(text, base);
        self.refresh_playlist_groups();
        self.refresh_playlist_model();
        let mut out = write_decimal(n as u64);
        push_text(&mut out, " entrées chargées");
        from_chars(&out)
    }

    /// Makes the entry that is shown at that place a favourite, or no longer one.
    /// Says whether there is such an entry, so that the settings have to be saved.
    pub fn toggle_favorite(&mut self, index: usize) -> (save: bool)
        ensures
            save == (index < old(self).playlist_visible@.len() && old(
                self,
            ).playlist_visible@[index as int] < old(self).playlist@.items.len()),
            !save ==> *final(self) == *old(self),
            save ==> {
                let place = old(self).playlist_visible@[index as int];
                &&& names(final(self).settings.favorites@) == toggled(
                    names(old(self).settings.favorites@),
                    old(self).playlist@.items[place as int].source,
                )
                &&& final(self).playlist_visible@ == final(self).shown()
                &&& *final(self) == (App {
                    settings: Settings {
                        favorites: final(self).settings.favorites,
                        ..old(self).settings
                    },
                    playlist_visible: final(self).playlist_visible,
                    ..*old(self)
                })
            },
    {
        if index >= self.playlist_visible.len() {
            return false;
        }
        let place: usize = self.playlist_visible[index];
        if place >= self.playlist.len() {
            return false;
        }
        let ghost all = self.playlist@.items;
        let items = self.playlist.items();
        assert(all[place as int] == items@[place as int]@);
        let source = items[place].source.clone();
        let _ = self.settings.toggle_favorite(source.as_str());
        self.refresh_playlist_model();
        true
    }

    /// Shows only favourites, or all entries.
    pub fn toggle_favorites_filter(&mut self)
        ensures
            final(self).playlist_visible@ == final(self).shown(),
            *final(self) == (App {
                playlist_favorites_only: !old(self).playlist_favorites_only,
                playlist_visible: final(self).playlist_visible,
                ..*old(self)
            }),
    {
        self.playlist_favorites_only = !self.playlist_favorites_only;
        self.refresh_playlist_model();
    }

    /// Sets the text that is searched in the titles.
    pub fn set_playlist_search(&mut self, text: &str)
        ensures
            final(self).playlist_search@ == text@,
            final(self).playlist_visible@ == final(self).shown(),
            *final(self) == (App {
                playlist_search: final(self).playlist_search,
                playlist_visible: final(self).playlist_visible,
                ..*old(self)
            }),
    {
        self.playlist_search = text.to_owned();
        self.refresh_playlist_model();
    }

    /// Chooses the category at that place of the list, whose first one stands for
    /// all.
    pub fn set_playlist_group(&mut self, index: i32)
        ensures
            final(self).playlist_group@ == (if 0 < index <= old(self).playlist_groups@.len() {
                old(self).playlist_groups@[index - 1]@
            } else {
                seq![]
            }),
            final(self).playlist_visible@ == final(self).shown(),
            *final(self) == (App {
                playlist_group: final(self).playlist_group,
                playlist_visible: final(self).playlist_visible,
                ..*old(self)
            }),
    {
        if index > 0 && (index as usize) <= self.playlist_groups.len() {
            self.playlist_group = self.playlist_groups[index as usize - 1].clone();
        } else {
            self.playlist_group = String::new();
            assert(self.playlist_group@ =~= seq![]);
        }
        self.refresh_playlist_model();
    }

    /// Plays in random order, or in the order of the list. Says what to tell the
    /// user.
    pub fn toggle_shuffle(&mut self) -> (status: &'static str)
        requires
            old(self).wf(),
        ensures
            final(self).wf(),
            final(self).playlist@ == (Order {
                shuffle: !old(self).playlist@.shuffle,
                history: fresh_history(!old(self).playlist@.shuffle, old(self).playlist@.current),
                ..old(self).playlist@
            }),
            *final(self) == (App { playlist: final(self).playlist, ..*old(self) }),
            status@ == (if final(self).playlist@.shuffle {
                "Lecture aléatoire : activée"@
            } else {
                "Lecture aléatoire : désactivée"@
            }),
    {
        let on: bool = !self.playlist.shuffle();
        self.playlist.set_shuffle(on);
        if on {
            "Lecture aléatoire : activée"
        } else {
            "Lecture aléatoire : désactivée"
        }
    }
}

/// What is said of saving the playlist.
pub fn save_status(path: &str, error: Option<&str>) -> (r: String)
    ensures
        r@ == (match error {
            None => "Playlist enregistrée : "@ + path@,
            Some(e) => "Échec d'enregistrement : "@ + e@,
        }),
{
    match error {
        None => glue("Playlist enregistrée : ", path),
        Some(e) => glue("Échec d'enregistrement : ", e),
    }
}

// ---- Laws ------------------------------------------------------------------

/// An address with nothing in it is ignored, one of no known protocol is rejected, a
/// list is fetched, and all else is played; white space around it does not count.
pub proof fn law_addresses_are_told_apart(url: Seq<char>)
    requires
        trim(url) == url,
    ensures
        url.len() == 0 ==> url_action(url) == UrlAction::Ignore,
        url.len() > 0 && kind_of(url) == StreamKind::Local ==> url_action(url) == UrlAction::Reject,
        url.len() > 0 && is_url_text(url) ==> url_action(url) == (if contains(
            lowered(url),
            ".m3u"@,
        ) {
            UrlAction::Fetch
        } else {
            UrlAction::Play
        }),
        url_action(url) == UrlAction::Ignore <==> url.len() == 0,
        starts_with(url, "bluray:"@) ==> url_action(url) != UrlAction::Reject,
{
    reveal_strlit("bluray:");
    let disc = "bluray:"@;
    assert(lowered(disc) == disc);
    if starts_with(url, disc) {
        assert(lowered(url).subrange(0, 7) == lowered(url.subrange(0, 7)));
    }
}

/// An entry that is added stands behind the others and is the current one.
pub proof fn law_added_entry_is_current(o: Order, e: Entry)
    requires
        o.items.len() < usize::MAX,
    ensures
        with_entry(o, e).items == o.items.push(e),
        with_entry(o, e).current == Some(o.items.len() as usize),
        with_entry(o, e).shuffle == o.shuffle,
{
}

} // verus!
