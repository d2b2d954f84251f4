//! Settings that last, the history of what was played, and where to resume.

use crate::lowercase::{to_unicode_lowercase, unicode_lowered};
use crate::text::{has_prefix, same_str, starts_with, to_chars};
use crate::text_map::{TextMap, lookup};
use vstd::prelude::*;

verus! {

/// How many entries the history keeps.
pub const HISTORY_LIMIT: usize = 50;

/// A position before this one is not worth resuming at.
pub const RESUME_MIN_US: i64 = 10_000_000;

/// Bookmarks that are less than this apart count as one.
pub const BOOKMARK_TOLERANCE_US: i64 = 2_000_000;

/// What is remembered of a medium: the speed and the tracks that were chosen.
#[derive(Debug, Clone, Copy, PartialEq, Eq, Structural)]
pub struct MediaState {
    /// Index in the table of speeds.
    pub speed_index: i32,
    /// Index of the audio track.
    pub audio_track: i32,
    /// Index of the subtitle track; zero is none.
    pub subtitle_track: i32,
}

/// Normal speed, the first audio track, no subtitles.
pub open spec fn default_media_state() -> MediaState {
    MediaState { speed_index: 3, audio_track: 0, subtitle_track: 0 }
}

impl Default for MediaState {
    fn default() -> (state: Self)
        ensures
            state == default_media_state(),
    {
        MediaState { speed_index: 3, audio_track: 0, subtitle_track: 0 }
    }
}

/// The size of the window, in logical pixels.
#[derive(Debug, Clone, Copy, PartialEq, Eq, Structural)]
pub struct WindowGeometry {
    pub width: u32,
    pub height: u32,
}

/// The settings that the library reads or changes.
#[derive(Debug)]
pub struct Settings {
    /// Whether the dark theme is on.
    pub dark_theme: bool,
    /// What was played last, the most recent first.
    pub history: Vec<String>,
    /// Where to resume a medium (microseconds).
    pub resume_positions: TextMap<i64>,
    /// Whether the loudness is normalised.
    pub normalize_audio: bool,
    /// A colour for all subtitles (`0xRRGGBB`); none to follow their style.
    pub subtitle_color: Option<u32>,
    /// What is remembered of a medium.
    pub media_states: TextMap<MediaState>,
    /// Whether to look for updates at the start.
    pub check_updates: bool,
    /// The key for online subtitles; blank where they are off.
    pub opensubtitles_api_key: String,
    /// The language of online subtitles.
    pub subtitle_language: String,
    /// The language of the interface: `auto`, `fr` or `en`.
    pub language: String,
    /// The sources that are favourites.
    pub favorites: Vec<String>,
    /// The bookmarks of a medium (microseconds), sorted.
    pub bookmarks: TextMap<Vec<i64>>,
    /// The last size of the window.
    pub window: Option<WindowGeometry>,
}

/// The texts of a list of strings.
pub open spec fn names(v: Seq<String>) -> Seq<Seq<char>> {
    Seq::new(v.len(), |i: int| v[i]@)
}

impl Settings {
    /// Whether the maps are well formed.
    pub open spec fn wf(&self) -> bool {
        self.resume_positions.wf() && self.media_states.wf() && self.bookmarks.wf()
    }
}

impl Default for Settings {
    fn default() -> (s: Self)
        ensures
            s.wf(),
            s.dark_theme,
            s.history@.len() == 0,
            s.resume_positions@ == Map::<Seq<char>, i64>::empty(),
            !s.normalize_audio,
            s.subtitle_color is None,
            s.media_states@ == Map::<Seq<char>, MediaState>::empty(),
            s.check_updates,
            s.opensubtitles_api_key@.len() == 0,
            s.subtitle_language@ == "fr"@,
            s.language@ == "auto"@,
            s.favorites@.len() == 0,
            s.bookmarks@ == Map::<Seq<char>, Vec<i64>>::empty(),
            s.window is None,
    {
        Settings {
            dark_theme: true,
            history: Vec::new(),
            resume_positions: TextMap::new(),
            normalize_audio: false,
            subtitle_color: None,
            media_states: TextMap::new(),
            check_updates: true,
            opensubtitles_api_key: String::new(),
            subtitle_language: "fr".to_owned(),
            language: "auto".to_owned(),
            favorites: Vec::new(),
            bookmarks: TextMap::new(),
            window: None,
        }
    }
}

// ---- History ---------------------------------------------------------------

/// The texts of `list` that are not `name`.
pub open spec fn without(list: Seq<Seq<char>>, name: Seq<char>) -> Seq<Seq<char>>
    decreases list.len(),
{
    if list.len() == 0 {
        list
    } else if list.last() == name {
        without(list.drop_last(), name)
    } else {
        without(list.drop_last(), name).push(list.last())
    }
}

/// The history with a source as its most recent entry: it holds it once, and
/// no more than its limit.
pub open spec fn recorded(list: Seq<Seq<char>>, name: Seq<char>) -> Seq<Seq<char>> {
    let all = seq![name] + without(list, name);
    if all.len() > HISTORY_LIMIT {
        all.take(HISTORY_LIMIT as int)
    } else {
        all
    }
}

/// Puts a source at the head of a list that holds each source once.
pub fn record(list: &mut Vec<String>, source: &str)
    ensures
        names(final(list)@) == recorded(names(old(list)@), source@),
{
    let wanted = to_chars(source);
    let mut kept: Vec<String> = Vec::new();
    kept.push(source.to_owned());
    let ghost given = names(list@);
    assert(names(kept@) =~= seq![source@] + without(given.take(0), source@));
    let n: usize = list.len();
    let mut i: usize = 0;
    while i < n
        invariant
            wanted@ == source@,
            n == list@.len(),
            i <= n,
            given == names(list@),
            names(kept@) == seq![source@] + without(given.take(i as int), source@),
        decreases n - i,
    {
        let ghost before = names(kept@);
        assert(given.take(i + 1).drop_last() == given.take(i as int));
        assert(given.take(i + 1).last() == list@[i as int]@);
        if !same_str(list[i].as_str(), &wanted) {
            kept.push(list[i].clone());
            assert(names(kept@) =~= before.push(list@[i as int]@));
        }
        i = i + 1;
    }
    assert(given.take(n as int) == given);
    let ghost all = names(kept@);
    if kept.len() > HISTORY_LIMIT {
        kept.truncate(HISTORY_LIMIT);
        assert(names(kept@) =~= all.take(HISTORY_LIMIT as int));
    }
    *list = kept;
}

// ---- Positions -------------------------------------------------------------

/// Whether a medium is as good as finished: 95 % of it were played.
pub open spec fn is_near_end(position: int, duration: int) -> bool {
    duration > 0 && position * 100 >= duration * 95
}

/// Whether a position is worth resuming at.
pub open spec fn is_resumable(position: int, duration: int) -> bool {
    position > RESUME_MIN_US && !is_near_end(position, duration)
}

/// The remembered positions once a medium is left at `position`.
pub open spec fn remembered_positions(
    positions: Map<Seq<char>, i64>,
    source: Seq<char>,
    position: i64,
    duration: i64,
) -> Map<Seq<char>, i64> {
    if is_resumable(position as int, duration as int) {
        positions.insert(source, position)
    } else {
        positions.remove(source)
    }
}

/// The remembered tracks and speeds once a medium is left with `state`.
pub open spec fn remembered_states(
    states: Map<Seq<char>, MediaState>,
    source: Seq<char>,
    state: MediaState,
) -> Map<Seq<char>, MediaState> {
    if state == default_media_state() {
        states.remove(source)
    } else {
        states.insert(source, state)
    }
}

// ---- Favourites ------------------------------------------------------------

/// The first place at which `name` stands in `list`.
pub open spec fn place_of(list: Seq<Seq<char>>, name: Seq<char>) -> Option<int>
    decreases list.len(),
{
    if list.len() == 0 {
        None
    } else {
        match place_of(list.drop_last(), name) {
            Some(i) => Some(i),
            None => if list.last() == name {
                Some(list.len() - 1)
            } else {
                None
            },
        }
    }
}

/// The place that is found is one at which the text stands; a text that is in
/// the list is found.
pub proof fn lemma_place_of(list: Seq<Seq<char>>, name: Seq<char>)
    ensures
        place_of(list, name) matches Some(i) ==> 0 <= i < list.len() && list[i] == name,
        place_of(list, name) is Some <==> list.contains(name),
    decreases list.len(),
{
    if list.len() > 0 {
        let less = list.drop_last();
        lemma_place_of(less, name);
        if less.contains(name) {
            let i = choose|i: int| 0 <= i < less.len() && less[i] == name;
            assert(list[i] == name);
        }
        if list.last() == name {
            assert(list[list.len() - 1] == name);
        }
        if list.contains(name) {
            let i = choose|i: int| 0 <= i < list.len() && list[i] == name;
            if i < less.len() {
                assert(less[i] == name);
            }
        }
    }
}

/// The list with `name` taken out at its first place or, where it is not
/// there, added at the end.
pub open spec fn toggled(list: Seq<Seq<char>>, name: Seq<char>) -> Seq<Seq<char>> {
    match place_of(list, name) {
        Some(i) => list.remove(i),
        None => list.push(name),
    }
}

/// The first place at which a string stands in a list.
fn find_name(list: &Vec<String>, name: &str) -> (r: Option<usize>)
    ensures
        r matches Some(i) ==> place_of(names(list@), name@) == Some(i as int) && i < list@.len(),
        r is None ==> place_of(names(list@), name@) is None,
{
    let wanted = to_chars(name);
    let ghost all = names(list@);
    let mut i: usize = 0;
    while i < list.len()
        invariant
            wanted@ == name@,
            i <= list@.len(),
            all == names(list@),
            place_of(all.take(i as int), name@) is None,
        decreases list@.len() - i,
    {
        assert(all.take(i + 1).drop_last() == all.take(i as int));
        assert(all.take(i + 1).last() == list@[i as int]@);
        if same_str(list[i].as_str(), &wanted) {
            proof {
                lemma_place_of_prefix(all, name@, i + 1);
            }
            return Some(i);
        }
        i = i + 1;
    }
    assert(all.take(list@.len() as int) == all);
    None
}

/// What is found in a prefix is found in the whole.
proof fn lemma_place_of_prefix(list: Seq<Seq<char>>, name: Seq<char>, n: int)
    requires
        0 <= n <= list.len(),
        place_of(list.take(n), name) is Some,
    ensures
        place_of(list, name) == place_of(list.take(n), name),
    decreases list.len(),
{
    if n == list.len() {
        assert(list.take(n) == list);
    } else {
        assert(list.drop_last().take(n) == list.take(n));
        lemma_place_of_prefix(list.drop_last(), name, n);
    }
}

// ---- Bookmarks -------------------------------------------------------------

/// Whether two positions count as the same bookmark.
pub open spec fn is_close(a: int, b: int) -> bool {
    -BOOKMARK_TOLERANCE_US < a - b < BOOKMARK_TOLERANCE_US
}

/// The first bookmark that is close to `pos`.
pub open spec fn close_place(list: Seq<i64>, pos: int) -> Option<int>
    decreases list.len(),
{
    if list.len() == 0 {
        None
    } else {
        match close_place(list.drop_last(), pos) {
            Some(i) => Some(i),
            None => if is_close(list.last() as int, pos) {
                Some(list.len() - 1)
            } else {
                None
            },
        }
    }
}

/// Whether the positions stand in ascending order.
pub open spec fn is_ascending(list: Seq<i64>) -> bool {
    forall|i: int, j: int| 0 <= i <= j < list.len() ==> list[i] <= list[j]
}

/// `list`, which is ascending, with `x` after all that is not greater.
pub open spec fn with_position(list: Seq<i64>, x: i64) -> Seq<i64>
    decreases list.len(),
{
    if list.len() > 0 && list.last() > x {
        with_position(list.drop_last(), x).push(list.last())
    } else {
        list.push(x)
    }
}

/// The positions in ascending order.
pub open spec fn ascending(list: Seq<i64>) -> Seq<i64>
    decreases list.len(),
{
    if list.len() == 0 {
        list
    } else {
        with_position(ascending(list.drop_last()), list.last())
    }
}

proof fn lemma_with_position(list: Seq<i64>, x: i64)
    requires
        is_ascending(list),
    ensures
        is_ascending(with_position(list, x)),
        with_position(list, x).to_multiset() == list.to_multiset().insert(x),
        with_position(list, x).len() == list.len() + 1,
        forall|i: int|
            0 <= i < with_position(list, x).len() ==> #[trigger] with_position(list, x)[i] <= x || (
            list.len() > 0 && with_position(list, x)[i] <= list.last()),
    decreases list.len(),
{
    broadcast use vstd::seq_lib::group_to_multiset_ensures;

    if list.len() > 0 && list.last() > x {
        let less = list.drop_last();
        let last = list.last();
        assert(is_ascending(less));
        lemma_with_position(less, x);
        assert(list == less.push(last));
        assert(less.len() > 0 ==> less.last() <= last);
        let r = with_position(list, x);
        assert(list.to_multiset().insert(x) =~= less.to_multiset().insert(x).insert(last));
    }
}

/// Sorting the positions keeps each of them.
pub proof fn law_ascending(list: Seq<i64>)
    ensures
        is_ascending(ascending(list)),
        ascending(list).to_multiset() == list.to_multiset(),
        ascending(list).len() == list.len(),
    decreases list.len(),
{
    broadcast use vstd::seq_lib::group_to_multiset_ensures;

    if list.len() > 0 {
        law_ascending(list.drop_last());
        lemma_with_position(ascending(list.drop_last()), list.last());
        assert(list == list.drop_last().push(list.last()));
    }
}

/// The bookmarks with `pos` toggled: the first one that is close is taken out;
/// where none is, `pos` is added and the list is sorted.
pub open spec fn toggled_bookmarks(list: Seq<i64>, pos: i64) -> Seq<i64> {
    match close_place(list, pos as int) {
        Some(i) => list.remove(i),
        None => ascending(list.push(pos)),
    }
}

/// The first bookmark that is close to `pos`.
fn find_close(list: &Vec<i64>, pos: i64) -> (r: Option<usize>)
    ensures
        r matches Some(i) ==> close_place(list@, pos as int) == Some(i as int) && i < list@.len(),
        r is None ==> close_place(list@, pos as int) is None,
{
    let mut i: usize = 0;
    while i < list.len()
        invariant
            i <= list@.len(),
            close_place(list@.take(i as int), pos as int) is None,
        decreases list@.len() - i,
    {
        assert(list@.take(i + 1).drop_last() == list@.take(i as int));
        let distance: i128 = list[i] as i128 - pos as i128;
        if -(BOOKMARK_TOLERANCE_US as i128) < distance && distance
            < BOOKMARK_TOLERANCE_US as i128 {
            proof {
                lemma_close_place_prefix(list@, pos as int, i + 1);
            }
            return Some(i);
        }
        i = i + 1;
    }
    assert(list@.take(list@.len() as int) == list@);
    None
}

proof fn lemma_close_place_prefix(list: Seq<i64>, pos: int, n: int)
    requires
        0 <= n <= list.len(),
        close_place(list.take(n), pos) is Some,
    ensures
        close_place(list, pos) == close_place(list.take(n), pos),
    decreases list.len(),
{
    if n == list.len() {
        assert(list.take(n) == list);
    } else {
        assert(list.drop_last().take(n) == list.take(n));
        lemma_close_place_prefix(list.drop_last(), pos, n);
    }
}

/// Puts `x` after all that is not greater in an ascending list.
fn insert_position(list: &mut Vec<i64>, x: i64)
    ensures
        final(list)@ == with_position(old(list)@, x),
{
    let mut at: usize = list.len();
    let ghost given = list@;
    assert(given.take(at as int) == given);
    assert(with_position(given, x) =~= with_position(given.take(at as int), x) + given.skip(
        at as int,
    ));
    while at > 0 && list[at - 1] > x
        invariant
            at <= list@.len(),
            list@ == given,
            with_position(given, x) == with_position(given.take(at as int), x) + given.skip(
                at as int,
            ),
        decreases at,
    {
        assert(given.take(at as int).drop_last() == given.take(at - 1));
        assert(given.take(at as int).last() == given[at - 1]);
        assert(with_position(given, x) =~= with_position(given.take(at - 1), x) + given.skip(
            at - 1,
        ));
        at = at - 1;
    }
    list.insert(at, x);
    assert(list@ =~= given.take(at as int).push(x) + given.skip(at as int));
}

/// The positions in ascending order.
fn sort_positions(list: &Vec<i64>) -> (r: Vec<i64>)
    ensures
        r@ == ascending(list@),
{
    let mut out: Vec<i64> = Vec::new();
    let mut i: usize = 0;
    while i < list.len()
        invariant
            i <= list@.len(),
            out@ == ascending(list@.take(i as int)),
        decreases list@.len() - i,
    {
        assert(list@.take(i + 1).drop_last() == list@.take(i as int));
        insert_position(&mut out, list[i]);
        i = i + 1;
    }
    assert(list@.take(list@.len() as int) == list@);
    out
}

// ---- Operations ------------------------------------------------------------

/// The bookmarks that a map has for a source.
pub open spec fn bookmarks_of(m: Map<Seq<char>, Vec<i64>>, source: Seq<char>) -> Seq<i64> {
    if m.dom().contains(source) {
        m[source]@
    } else {
        seq![]
    }
}

/// The bookmarks of all the media.
pub open spec fn bookmark_lists(m: Map<Seq<char>, Vec<i64>>) -> Map<Seq<char>, Seq<i64>> {
    Map::new(|k: Seq<char>| m.dom().contains(k), |k: Seq<char>| m[k]@)
}

/// The bookmarks of all the media with `pos` toggled for one of them. A medium
/// whose last bookmark is taken out is forgotten.
pub open spec fn toggled_lists(
    m: Map<Seq<char>, Seq<i64>>,
    source: Seq<char>,
    list: Seq<i64>,
    pos: i64,
) -> Map<Seq<char>, Seq<i64>> {
    let after = toggled_bookmarks(list, pos);
    if after.len() == 0 {
        m.remove(source)
    } else {
        m.insert(source, after)
    }
}

/// The language of the interface that a wish stands for: English where it
/// begins with `en`, and French otherwise.
pub open spec fn interface_language(wish: Seq<char>) -> Seq<char> {
    if starts_with(wish, "en"@) {
        "en"@
    } else {
        "fr"@
    }
}

/// The language of the interface that a wish, in lower case, stands for.
pub fn language_for(wish: &str) -> (r: &'static str)
    ensures
        r@ == interface_language(wish@),
{
    let s = to_chars(wish);
    if has_prefix(&s, "en") {
        "en"
    } else {
        "fr"
    }
}

impl Settings {
    /// Records a medium in the history.
    pub fn push_history(&mut self, source: &str)
        ensures
            names(final(self).history@) == recorded(names(old(self).history@), source@),
            *final(self) == (Settings { history: final(self).history, ..*old(self) }),
    {
        record(&mut self.history, source);
    }

    /// Remembers where a medium was left, or forgets it where it had just begun
    /// or was as good as finished.
    pub fn remember_position(&mut self, source: &str, position_us: i64, duration_us: i64)
        requires
            old(self).wf(),
        ensures
            final(self).resume_positions@ == remembered_positions(
                old(self).resume_positions@,
                source@,
                position_us,
                duration_us,
            ),
            *final(self) == (Settings {
                resume_positions: final(self).resume_positions,
                ..*old(self)
            }),
            final(self).wf(),
    {
        let near_end: bool = duration_us > 0 && position_us as i128 * 100 >= duration_us as i128
            * 95;
        if position_us <= RESUME_MIN_US || near_end {
            let _ = self.resume_positions.remove(source);
        } else {
            self.resume_positions.insert(source, position_us);
        }
    }

    /// Where to resume a medium.
    pub fn resume_position(&self, source: &str) -> (r: Option<i64>)
        requires
            self.wf(),
        ensures
            r == lookup(self.resume_positions@, source@),
    {
        match self.resume_positions.get(source) {
            Some(p) => Some(*p),
            None => None,
        }
    }

    /// Remembers the tracks and the speed of a medium, or forgets them where
    /// they are the usual ones.
    pub fn remember_media_state(&mut self, source: &str, state: MediaState)
        requires
            old(self).wf(),
        ensures
            final(self).media_states@ == remembered_states(
                old(self).media_states@,
                source@,
                state,
            ),
            *final(self) == (Settings { media_states: final(self).media_states, ..*old(self) }),
            final(self).wf(),
    {
        if state == MediaState::default() {
            let _ = self.media_states.remove(source);
        } else {
            self.media_states.insert(source, state);
        }
    }

    /// What is remembered of a medium.
    pub fn media_state(&self, source: &str) -> (r: Option<MediaState>)
        requires
            self.wf(),
        ensures
            r == lookup(self.media_states@, source@),
    {
        match self.media_states.get(source) {
            Some(s) => Some(*s),
            None => None,
        }
    }

    /// Whether a source is a favourite.
    pub fn is_favorite(&self, source: &str) -> (r: bool)
        ensures
            r == names(self.favorites@).contains(source@),
    {
        proof {
            lemma_place_of(names(self.favorites@), source@);
        }
        find_name(&self.favorites, source).is_some()
    }

    /// Makes a source a favourite, or no longer one, and says which.
    pub fn toggle_favorite(&mut self, source: &str) -> (r: bool)
        ensures
            names(final(self).favorites@) == toggled(names(old(self).favorites@), source@),
            r == !names(old(self).favorites@).contains(source@),
            *final(self) == (Settings { favorites: final(self).favorites, ..*old(self) }),
    {
        let ghost given = names(self.favorites@);
        proof {
            lemma_place_of(given, source@);
        }
        match find_name(&self.favorites, source) {
            Some(i) => {
                let _ = self.favorites.remove(i);
                assert(names(self.favorites@) =~= given.remove(i as int));
                false
            },
            None => {
                self.favorites.push(source.to_owned());
                assert(names(self.favorites@) =~= given.push(source@));
                true
            },
        }
    }

    /// The bookmarks of a medium.
    pub fn bookmarks_for(&self, source: &str) -> (r: Vec<i64>)
        requires
            self.wf(),
        ensures
            r@ == bookmarks_of(self.bookmarks@, source@),
    {
        match self.bookmarks.get(source) {
            Some(list) => {
                let r = list.clone();
                assert(r@ =~= list@);
                r
            },
            None => Vec::new(),
        }
    }

    /// Toggles a bookmark: takes out the one that is close, or adds one. Says
    /// whether one was added.
    pub fn toggle_bookmark(&mut self, source: &str, pos_us: i64) -> (added: bool)
        requires
            old(self).wf(),
        ensures
            bookmark_lists(final(self).bookmarks@) == toggled_lists(
                bookmark_lists(old(self).bookmarks@),
                source@,
                bookmarks_of(old(self).bookmarks@, source@),
                pos_us,
            ),
            added == (close_place(bookmarks_of(old(self).bookmarks@, source@), pos_us as int)
                is None),
            *final(self) == (Settings { bookmarks: final(self).bookmarks, ..*old(self) }),
            final(self).wf(),
    {
        let ghost given = self.bookmarks@;
        let mut list: Vec<i64> = match self.bookmarks.remove(source) {
            Some(l) => l,
            None => Vec::new(),
        };
        let ghost before = list@;
        assert(before =~= bookmarks_of(given, source@));
        let found = find_close(&list, pos_us);
        let added: bool = found.is_none();
        match found {
            Some(i) => {
                let _ = list.remove(i);
            },
            None => {
                list.push(pos_us);
                list = sort_positions(&list);
                proof {
                    law_ascending(before.push(pos_us));
                }
            },
        }
        assert(list@ == toggled_bookmarks(before, pos_us));
        let ghost after = list;
        if list.len() > 0 {
            self.bookmarks.insert(source, list);
        }
        assert(bookmark_lists(self.bookmarks@) =~= toggled_lists(
            bookmark_lists(given),
            source@,
            before,
            pos_us,
        ));
        added
    }

    /// The language of the interface. Where the setting is `auto`, `locale`
    /// decides, the value of the environment.
    pub fn resolve_language(&self, locale: Option<&str>) -> (r: &'static str)
        ensures
            r@ == interface_language(
                unicode_lowered(
                    if self.language@ == "auto"@ {
                        match locale {
                            Some(l) => l@,
                            None => ""@,
                        }
                    } else {
                        self.language@
                    },
                ),
            ),
    {
        let setting = to_chars(self.language.as_str());
        if same_str("auto", &setting) {
            match locale {
                Some(l) => language_for(to_unicode_lowercase(l).as_str()),
                None => language_for(to_unicode_lowercase("").as_str()),
            }
        } else {
            language_for(to_unicode_lowercase(self.language.as_str()).as_str())
        }
    }
}

// ---- Laws ------------------------------------------------------------------

proof fn lemma_without(list: Seq<Seq<char>>, name: Seq<char>)
    ensures
        !without(list, name).contains(name),
        list.no_duplicates() ==> without(list, name).no_duplicates(),
        forall|x: Seq<char>| #[trigger] without(list, name).contains(x) ==> list.contains(x),
        forall|x: Seq<char>|
            list.contains(x) && x != name ==> #[trigger] without(list, name).contains(x),
    decreases list.len(),
{
    if list.len() > 0 {
        let less = list.drop_last();
        lemma_without(less, name);
        let a = without(less, name);
        let b = without(list, name);
        assert forall|x: Seq<char>| #[trigger] b.contains(x) implies list.contains(x) by {
            let i = choose|i: int| 0 <= i < b.len() && b[i] == x;
            if i < a.len() {
                assert(a.contains(x));
                assert(less.contains(x));
                let k = choose|k: int| 0 <= k < less.len() && less[k] == x;
                assert(list[k] == x);
            } else {
                assert(list[list.len() - 1] == x);
            }
        }
        assert forall|x: Seq<char>| list.contains(x) && x != name implies #[trigger] b.contains(
            x,
        ) by {
            let i = choose|i: int| 0 <= i < list.len() && list[i] == x;
            if i < less.len() {
                assert(less[i] == x);
                assert(a.contains(x));
                let k = choose|k: int| 0 <= k < a.len() && a[k] == x;
                assert(b[k] == x);
            } else {
                assert(b[b.len() - 1] == x);
            }
        }
        if b.contains(name) {
            let i = choose|i: int| 0 <= i < b.len() && b[i] == name;
            if i < a.len() {
                assert(a.contains(name));
            }
        }
        if list.no_duplicates() {
            assert(less.no_duplicates());
            assert(b.no_duplicates()) by {
                if list.last() != name && a.contains(list.last()) {
                    assert(less.contains(list.last()));
                    let k = choose|k: int| 0 <= k < less.len() && less[k] == list.last();
                    assert(list[k] == list[list.len() - 1]);
                }
                assert forall|i: int, j: int| 0 <= i < b.len() && 0 <= j < b.len() && i != j implies b[i]
                    != b[j] by {
                    if i < a.len() && j < a.len() {
                        assert(a[i] != a[j]);
                    } else if i < a.len() {
                        assert(a.contains(a[i]));
                    } else {
                        assert(a.contains(a[j]));
                    }
                }
            }
        }
    }
}

/// The history begins with the source that was recorded last, holds no source
/// twice, and never more than its limit.
pub proof fn law_history(list: Seq<Seq<char>>, name: Seq<char>)
    requires
        list.no_duplicates(),
    ensures
        recorded(list, name)[0] == name,
        recorded(list, name).no_duplicates(),
        0 < recorded(list, name).len() <= HISTORY_LIMIT,
{
    lemma_without(list, name);
    let rest = without(list, name);
    let all = seq![name] + rest;
    assert(all.no_duplicates()) by {
        assert forall|i: int, j: int|
            0 <= i < all.len() && 0 <= j < all.len() && i != j implies all[i] != all[j] by {
            if i == 0 {
                assert(rest[j - 1] == all[j]);
                assert(rest.contains(rest[j - 1]));
            } else if j == 0 {
                assert(rest[i - 1] == all[i]);
                assert(rest.contains(rest[i - 1]));
            } else {
                assert(rest[i - 1] != rest[j - 1]);
            }
        }
    }
}

/// Toggling a favourite makes it one if and only if it was none.
pub proof fn law_toggle_flips_membership(list: Seq<Seq<char>>, name: Seq<char>)
    requires
        list.no_duplicates(),
    ensures
        toggled(list, name).contains(name) <==> !list.contains(name),
        toggled(list, name).no_duplicates(),
        !list.contains(name) ==> toggled(toggled(list, name), name) == list,
{
    lemma_place_of(list, name);
    match place_of(list, name) {
        Some(i) => {
            let r = list.remove(i);
            if r.contains(name) {
                let k = choose|k: int| 0 <= k < r.len() && r[k] == name;
                let j = if k < i { k } else { k + 1 };
                assert(list[j] == name);
            }
            assert(r.no_duplicates());
        },
        None => {
            let r = list.push(name);
            assert(r[list.len() as int] == name);
            assert(r.drop_last() == list);
            assert(place_of(r, name) == Some(list.len() as int));
            assert(r.remove(list.len() as int) == list);
            assert(r.no_duplicates()) by {
                assert forall|i: int, j: int|
                    0 <= i < r.len() && 0 <= j < r.len() && i != j implies r[i] != r[j] by {
                    if i < list.len() && j < list.len() {
                        assert(list[i] != list[j]);
                    } else if i < list.len() {
                        assert(list.contains(list[i]));
                    } else {
                        assert(list.contains(list[j]));
                    }
                }
            }
        },
    }
}

/// A medium is resumed where it was left, if that was worth remembering, and
/// from its beginning otherwise; the other media are left as they were.
pub proof fn law_position_is_remembered(
    positions: Map<Seq<char>, i64>,
    source: Seq<char>,
    position: i64,
    duration: i64,
    other: Seq<char>,
)
    ensures
        lookup(remembered_positions(positions, source, position, duration), source) == (
        if is_resumable(position as int, duration as int) {
            Some(position)
        } else {
            None::<i64>
        }),
        other != source ==> lookup(
            remembered_positions(positions, source, position, duration),
            other,
        ) == lookup(positions, other),
{
}

/// The tracks and the speed of a medium are found again as they were left;
/// where nothing is found, they were the usual ones. The other media are left
/// as they were.
pub proof fn law_state_is_remembered(
    states: Map<Seq<char>, MediaState>,
    source: Seq<char>,
    state: MediaState,
    other: Seq<char>,
)
    ensures
        (match lookup(remembered_states(states, source, state), source) {
            Some(found) => found,
            None => default_media_state(),
        }) == state,
        other != source ==> lookup(remembered_states(states, source, state), other) == lookup(
            states,
            other,
        ),
{
}

/// A bookmark that is set where none is close is taken away by toggling again.
pub proof fn law_toggling_a_new_bookmark_twice(list: Seq<i64>, pos: i64)
    requires
        is_ascending(list),
        close_place(list, pos as int) is None,
    ensures
        toggled_bookmarks(toggled_bookmarks(list, pos), pos) == list,
{
    lemma_ascending_keeps(list);
    assert(list.push(pos).drop_last() == list);
    lemma_with_position_place(list, pos);
}

/// The new position is the only one that is close to itself; without it the
/// list is what it was.
proof fn lemma_with_position_place(list: Seq<i64>, x: i64)
    requires
        is_ascending(list),
        close_place(list, x as int) is None,
    ensures
        close_place(with_position(list, x), x as int) matches Some(i) && 0 <= i < with_position(
            list,
            x,
        ).len() && with_position(list, x).remove(i) == list,
    decreases list.len(),
{
    if list.len() > 0 && list.last() > x {
        let less = list.drop_last();
        lemma_with_position_place(less, x);
        let r = with_position(less, x);
        assert(r.push(list.last()).drop_last() == r);
        let i = close_place(r, x as int)->0;
        assert(r.push(list.last()).remove(i) == r.remove(i).push(list.last()));
    } else {
        assert(list.push(x).drop_last() == list);
        assert(list.push(x).remove(list.len() as int) == list);
    }
}

/// Toggling keeps the bookmarks sorted, and no two of them close.
pub proof fn law_bookmarks_stay_sorted_and_apart(list: Seq<i64>, pos: i64)
    requires
        is_ascending(list),
        forall|i: int, j: int|
            0 <= i < j < list.len() ==> !is_close(#[trigger] list[i] as int, #[trigger] list[j] as int),
    ensures
        is_ascending(toggled_bookmarks(list, pos)),
        forall|i: int, j: int|
            0 <= i < j < toggled_bookmarks(list, pos).len() ==> !is_close(
                #[trigger] toggled_bookmarks(list, pos)[i] as int,
                #[trigger] toggled_bookmarks(list, pos)[j] as int,
            ),
{
    lemma_close_place(list, pos as int);
    match close_place(list, pos as int) {
        Some(i) => {},
        None => {
            lemma_ascending_keeps(list);
            assert(list.push(pos).drop_last() == list);
            lemma_with_position(list, pos);
            lemma_with_position_apart(list, pos);
        },
    }
}

proof fn lemma_close_place(list: Seq<i64>, pos: int)
    ensures
        close_place(list, pos) matches Some(i) ==> 0 <= i < list.len() && is_close(
            list[i] as int,
            pos,
        ),
        close_place(list, pos) is None ==> forall|i: int|
            0 <= i < list.len() ==> !is_close(#[trigger] list[i] as int, pos),
    decreases list.len(),
{
    if list.len() > 0 {
        let less = list.drop_last();
        lemma_close_place(less, pos);
        if close_place(list, pos) is None {
            assert forall|i: int| 0 <= i < list.len() implies !is_close(
                #[trigger] list[i] as int,
                pos,
            ) by {
                if i < less.len() {
                    assert(list[i] == less[i]);
                }
            }
        }
    }
}

proof fn lemma_with_position_apart(list: Seq<i64>, x: i64)
    requires
        is_ascending(list),
        forall|i: int, j: int|
            0 <= i < j < list.len() ==> !is_close(#[trigger] list[i] as int, #[trigger] list[j] as int),
        forall|i: int| 0 <= i < list.len() ==> !is_close(#[trigger] list[i] as int, x as int),
    ensures
        forall|i: int, j: int|
            0 <= i < j < with_position(list, x).len() ==> !is_close(
                #[trigger] with_position(list, x)[i] as int,
                #[trigger] with_position(list, x)[j] as int,
            ),
        forall|i: int|
            0 <= i < with_position(list, x).len() ==> #[trigger] with_position(list, x)[i] == x
                || list.contains(with_position(list, x)[i]),
        with_position(list, x).len() == list.len() + 1,
    decreases list.len(),
{
    let r = with_position(list, x);
    if list.len() > 0 && list.last() > x {
        let less = list.drop_last();
        let last = list.last();
        lemma_with_position_apart(less, x);
        let w = with_position(less, x);
        assert forall|i: int| 0 <= i < r.len() implies #[trigger] r[i] == x || list.contains(
            r[i],
        ) by {
            if i < w.len() {
                assert(r[i] == w[i]);
                if w[i] != x {
                    let k = choose|k: int| 0 <= k < less.len() && less[k] == w[i];
                    assert(list[k] == w[i]);
                }
            } else {
                assert(list[list.len() - 1] == r[i]);
            }
        }
        assert forall|i: int, j: int| 0 <= i < j < r.len() implies !is_close(
            #[trigger] r[i] as int,
            #[trigger] r[j] as int,
        ) by {
            if j < w.len() {
                assert(r[i] == w[i] && r[j] == w[j]);
            } else {
                assert(r[i] == w[i]);
                assert(r[j] == list[list.len() - 1]);
                if w[i] != x {
                    let k = choose|k: int| 0 <= k < less.len() && less[k] == w[i];
                    assert(list[k] == w[i]);
                }
            }
        }
    } else {
        assert forall|i: int| 0 <= i < r.len() implies #[trigger] r[i] == x || list.contains(
            r[i],
        ) by {
            if i < list.len() {
                assert(list[i] == r[i]);
            }
        }
    }
}

/// Sorting a sorted list changes nothing.
proof fn lemma_ascending_keeps(list: Seq<i64>)
    requires
        is_ascending(list),
    ensures
        ascending(list) == list,
    decreases list.len(),
{
    if list.len() > 0 {
        let less = list.drop_last();
        assert(is_ascending(less));
        lemma_ascending_keeps(less);
        if less.len() > 0 {
            assert(less.last() == list[list.len() - 2]);
        }
        assert(list == less.push(list.last()));
    }
}

proof fn lemma_without_others(list: Seq<Seq<char>>, name: Seq<char>)
    requires
        !list.contains(name),
    ensures
        without(list, name) == list,
    decreases list.len(),
{
    if list.len() > 0 {
        let less = list.drop_last();
        assert(list.contains(list[list.len() - 1]));
        if less.contains(name) {
            let i = choose|i: int| 0 <= i < less.len() && less[i] == name;
            assert(list.contains(list[i]));
        }
        lemma_without_others(less, name);
        assert(less.push(list.last()) == list);
    }
}

proof fn lemma_without_one(a: Seq<Seq<char>>, name: Seq<char>, b: Seq<Seq<char>>)
    requires
        !a.contains(name),
        !b.contains(name),
    ensures
        without(a + seq![name] + b, name) == a + b,
    decreases b.len(),
{
    let all = a + seq![name] + b;
    if b.len() == 0 {
        assert(all.drop_last() == a);
        lemma_without_others(a, name);
        assert(a + b == a);
    } else {
        let less = b.drop_last();
        assert(b.contains(b[b.len() - 1]));
        if less.contains(name) {
            let i = choose|i: int| 0 <= i < less.len() && less[i] == name;
            assert(b.contains(b[i]));
        }
        lemma_without_one(a, name, less);
        assert(all.drop_last() == a + seq![name] + less);
        assert(all.last() == b.last());
        assert((a + less).push(b.last()) == a + b);
    }
}

/// A source that is played moves to the head of the history, whether it was there or
/// not, and the others follow in their order; the oldest falls out once there are
/// more than fifty.
pub proof fn law_history_keeps_its_order(a: Seq<Seq<char>>, name: Seq<char>, b: Seq<Seq<char>>)
    requires
        !a.contains(name),
        !b.contains(name),
    ensures
        a.len() + b.len() < 50 ==> recorded(a + seq![name] + b, name) == seq![name] + a + b,
        a.len() + b.len() < 50 ==> recorded(a + b, name) == seq![name] + a + b,
        a.len() + b.len() >= 50 ==> recorded(a + b, name) == (seq![name] + a + b).take(50),
        a.len() + b.len() >= 50 ==> recorded(a + seq![name] + b, name) == (seq![name] + a + b).take(
            50,
        ),
{
    lemma_without_one(a, name, b);
    if (a + b).contains(name) {
        let i = choose|i: int| 0 <= i < (a + b).len() && (a + b)[i] == name;
        if i < a.len() {
            assert(a.contains(a[i]));
        } else {
            assert(b.contains(b[i - a.len()]));
        }
    }
    lemma_without_others(a + b, name);
    assert(seq![name] + (a + b) == seq![name] + a + b);
}

/// A position is worth resuming at where more than ten seconds of the medium were played and
/// less than nineteen twentieths of it, as far as its length is known.
pub proof fn law_position_is_worth_resuming(position: int, duration: int)
    ensures
        duration > 0 ==> (is_resumable(position, duration) <==> position > 10_000_000 && 20 * position < 19
            * duration),
        duration <= 0 ==> (is_resumable(position, duration) <==> position > 10_000_000),
{
}

proof fn lemma_place_is(a: Seq<Seq<char>>, name: Seq<char>, b: Seq<Seq<char>>)
    requires
        !a.contains(name),
    ensures
        place_of(a + seq![name] + b, name) == Some(a.len() as int),
    decreases b.len(),
{
    let all = a + seq![name] + b;
    if b.len() == 0 {
        assert(all.drop_last() == a);
        lemma_place_of(a, name);
    } else {
        lemma_place_is(a, name, b.drop_last());
        assert(all.drop_last() == a + seq![name] + b.drop_last());
    }
}

/// Toggling a favourite takes it out and leaves the others in their order, or puts it
/// behind them.
pub proof fn law_toggle_leaves_the_others(a: Seq<Seq<char>>, name: Seq<char>, b: Seq<Seq<char>>)
    requires
        !a.contains(name),
    ensures
        toggled(a + seq![name] + b, name) == a + b,
        toggled(a, name) == a + seq![name],
{
    lemma_place_is(a, name, b);
    assert((a + seq![name] + b).remove(a.len() as int) == a + b);
    lemma_place_of(a, name);
    assert(a.push(name) == a + seq![name]);
}

proof fn lemma_close_place_is(a: Seq<i64>, x: i64, b: Seq<i64>, pos: int)
    requires
        is_close(x as int, pos),
        forall|i: int| 0 <= i < a.len() ==> !is_close(#[trigger] a[i] as int, pos),
    ensures
        close_place(a + seq![x] + b, pos) == Some(a.len() as int),
    decreases b.len(),
{
    let all = a + seq![x] + b;
    if b.len() == 0 {
        assert(all.drop_last() == a);
        lemma_close_place(a, pos);
        if let Some(i) = close_place(a, pos) {
            assert(!is_close(a[i] as int, pos));
        }
    } else {
        lemma_close_place_is(a, x, b.drop_last(), pos);
        assert(all.drop_last() == a + seq![x] + b.drop_last());
    }
}

/// Toggling takes out the bookmark that lies less than two seconds from the position and
/// leaves the others; where there is none it adds the position and keeps the others.
pub proof fn law_bookmark_is_toggled(a: Seq<i64>, x: i64, b: Seq<i64>, pos: i64)
    requires
        forall|i: int|
            0 <= i < a.len() ==> (#[trigger] a[i]) - pos >= 2_000_000 || pos - a[i] >= 2_000_000,
    ensures
        -2_000_000 < x - pos < 2_000_000 ==> toggled_bookmarks(a + seq![x] + b, pos) == a + b,
        toggled_bookmarks(a, pos).to_multiset() == a.to_multiset().insert(pos),
        is_ascending(toggled_bookmarks(a, pos)),
{
    broadcast use vstd::seq_lib::group_to_multiset_ensures;

    assert forall|i: int| 0 <= i < a.len() implies !is_close(#[trigger] a[i] as int, pos as int) by {}
    if is_close(x as int, pos as int) {
        lemma_close_place_is(a, x, b, pos as int);
        assert((a + seq![x] + b).remove(a.len() as int) == a + b);
    }
    lemma_close_place(a, pos as int);
    if let Some(i) = close_place(a, pos as int) {
        assert(!is_close(a[i] as int, pos as int));
    }
    law_ascending(a.push(pos));
}

/// The interface speaks English to those who wish for any kind of it, and French to
/// all others.
pub proof fn law_language_goes_by_the_wish(rest: Seq<char>, other: Seq<char>)
    requires
        !starts_with(other, "en"@),
    ensures
        interface_language("en"@ + rest) == "en"@,
        interface_language(other) == "fr"@,
{
    reveal_strlit("en");
    assert(("en"@ + rest).subrange(0, 2) == "en"@);
}

/// Toggling a bookmark touches the medium that it is of and no other, and a medium
/// without a bookmark is forgotten.
pub proof fn law_bookmarks_of_other_media_stay(
    m: Map<Seq<char>, Seq<i64>>,
    source: Seq<char>,
    list: Seq<i64>,
    pos: i64,
    other: Seq<char>,
)
    requires
        other != source,
    ensures
        ({
            let after = toggled_lists(m, source, list, pos);
            &&& after.dom().contains(other) == m.dom().contains(other)
            &&& m.dom().contains(other) ==> after[other] == m[other]
            &&& after.dom().contains(source) <==> toggled_bookmarks(list, pos).len() > 0
            &&& after.dom().contains(source) ==> after[source] == toggled_bookmarks(list, pos)
        }),
{
}

} // verus!
