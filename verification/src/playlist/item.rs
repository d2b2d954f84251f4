//! Playlist entries.

use crate::utils::{display_name, law_name_is_the_last_part, name_of};
use crate::paths::is_name;
use vstd::prelude::*;

verus! {

/// A playlist entry: a local file or a URL.
#[derive(Debug, PartialEq)]
pub struct PlaylistItem {
    /// Local path or URL.
    pub source: String,
    /// The title to show: the file's name unless the playlist gives one.
    pub title: String,
    /// Category or country, empty where there is none.
    pub group: String,
    /// URL of the logo, empty where there is none.
    pub logo: String,
}

/// What an entry says.
#[verifier::ext_equal]
pub struct Entry {
    pub source: Seq<char>,
    pub title: Seq<char>,
    pub group: Seq<char>,
    pub logo: Seq<char>,
}

impl View for PlaylistItem {
    type V = Entry;

    open spec fn view(&self) -> Entry {
        Entry {
            source: self.source@,
            title: self.title@,
            group: self.group@,
            logo: self.logo@,
        }
    }
}

impl Clone for PlaylistItem {
    fn clone(&self) -> (r: Self)
        ensures
            r@ == self@,
    {
        PlaylistItem {
            source: self.source.clone(),
            title: self.title.clone(),
            group: self.group.clone(),
            logo: self.logo.clone(),
        }
    }
}

/// The entry for a source of which nothing else is known.
pub open spec fn bare_entry(source: Seq<char>) -> Entry {
    Entry { source, title: name_of(source), group: seq![], logo: seq![] }
}

/// The entries that the elements of `v` stand for.
pub open spec fn entries(v: Seq<PlaylistItem>) -> Seq<Entry> {
    Seq::new(v.len(), |i: int| v[i]@)
}

impl PlaylistItem {
    /// The entry for a source, titled with its name.
    pub fn new(source: &str) -> (item: Self)
        ensures
            item@ == bare_entry(source@),
    {
        let item = PlaylistItem {
            source: source.to_owned(),
            title: display_name(source),
            group: String::new(),
            logo: String::new(),
        };
        assert(item@ == bare_entry(source@));
        item
    }
}

// ---- Repeating -------------------------------------------------------------

/// What to play after an entry.
#[derive(Debug, Clone, Copy, PartialEq, Eq, Structural)]
pub enum RepeatMode {
    /// The next one, and nothing after the last.
    Off,
    /// The next one, and the first after the last.
    All,
    /// The same one again.
    One,
}

impl Default for RepeatMode {
    fn default() -> (mode: Self)
        ensures
            mode == RepeatMode::Off,
    {
        RepeatMode::Off
    }
}

impl RepeatMode {
    /// The next mode of the cycle.
    pub open spec fn after(self) -> RepeatMode {
        match self {
            RepeatMode::Off => RepeatMode::All,
            RepeatMode::All => RepeatMode::One,
            RepeatMode::One => RepeatMode::Off,
        }
    }

    /// The next mode of the cycle.
    pub fn cycled(self) -> (mode: Self)
        ensures
            mode == self.after(),
    {
        match self {
            RepeatMode::Off => RepeatMode::All,
            RepeatMode::All => RepeatMode::One,
            RepeatMode::One => RepeatMode::Off,
        }
    }

    /// The number of the mode in the interface.
    pub fn as_index(self) -> (i: i32)
        ensures
            i == match self {
                RepeatMode::Off => 0int,
                RepeatMode::All => 1,
                RepeatMode::One => 2,
            },
    {
        match self {
            RepeatMode::Off => 0,
            RepeatMode::All => 1,
            RepeatMode::One => 2,
        }
    }
}

/// Three steps bring the cycle back to where it was.
pub proof fn law_repeat_mode_cycles(mode: RepeatMode)
    ensures
        mode.after().after().after() == mode,
        mode.after() != mode,
{
}

// ---- Laws ------------------------------------------------------------------

/// An entry of which nothing is known but its source bears the source's name.
pub proof fn law_bare_entry_bears_its_name(before: Seq<char>, name: Seq<char>)
    requires
        is_name(name),
    ensures
        ({
            let source = before + seq!['/'] + name;
            let e = bare_entry(source);
            e.source == source && e.title == name && e.group.len() == 0 && e.logo.len() == 0
        }),
{
    law_name_is_the_last_part(before, name);
}

} // verus!
