//! Bookmarks, chapters, loops and timers.

use super::session::{App, LOOP_MIN_US};
use crate::decoder::DemuxCommand;
use crate::number::{decimal, write_decimal};
use crate::player::engine::{PlayerEngine, not_negative};
use crate::player::state::ChapterInfo;
use crate::playlist::item::RepeatMode;
use crate::settings::{
    Settings, bookmark_lists, bookmarks_of, close_place, toggled_bookmarks, toggled_lists,
};
use crate::text::{contains, from_chars, matches_at, push_all, push_text, starts_with, to_chars};
use crate::utils::{format_time, time_text};
use vstd::prelude::*;

verus! {

/// How a bookmark is shown, the first one being 1.
pub open spec fn bookmark_label(place: int, us: int) -> Seq<char> {
    "🔖 "@ + decimal((place + 1) as nat) + " · "@ + time_text(us)
}

/// How a chapter is shown, the first one being 1.
pub open spec fn chapter_label(place: int, title: Seq<char>, us: int) -> Seq<char> {
    decimal((place + 1) as nat) + ". "@ + title + " ("@ + time_text(us) + ")"@
}

/// A place in a list; those before its beginning stand for the first one.
pub open spec fn list_place(index: i32) -> int {
    if index < 0 {
        0
    } else {
        index as int
    }
}

/// A place in a list; those before its beginning stand for the first one.
pub fn place_in_list(index: i32) -> (r: usize)
    ensures
        r == list_place(index),
{
    if index < 0 {
        0
    } else {
        index as usize
    }
}

impl App {
    /// Puts a bookmark at the position, or takes out the one that is close. Says
    /// what to tell the user. `position` is missing where nothing is open.
    pub fn toggle_bookmark(&mut self, position: Option<i64>) -> (status: Option<&'static str>)
        requires
            old(self).wf(),
        ensures
            final(self).wf(),
            match (position, old(self).current_source) {
                (None, _) => (status matches Some(s) && s@ == "Aucun média ouvert"@)
                    && *final(self) == *old(self),
                (Some(_), None) => status is None && *final(self) == *old(self),
                (Some(pos), Some(source)) => {
                    let list = bookmarks_of(old(self).settings.bookmarks@, source@);
                    &&& bookmark_lists(final(self).settings.bookmarks@) == toggled_lists(
                        bookmark_lists(old(self).settings.bookmarks@),
                        source@,
                        list,
                        pos,
                    )
                    &&& final(self).bookmark_positions@ == toggled_bookmarks(list, pos)
                    &&& status matches Some(s) && s@ == (if close_place(list, pos as int) is None {
                        "Marque-page posé"@
                    } else {
                        "Marque-page retiré"@
                    })
                    &&& *final(self) == (App {
                        settings: Settings {
                            bookmarks: final(self).settings.bookmarks,
                            ..old(self).settings
                        },
                        bookmark_positions: final(self).bookmark_positions,
                        ..*old(self)
                    })
                },
            },
    {
        let pos: i64 = match position {
            Some(p) => p,
            None => return Some("Aucun média ouvert"),
        };
        let source: String = match &self.current_source {
            Some(s) => s.clone(),
            None => return None,
        };
        let ghost given = bookmark_lists(self.settings.bookmarks@);
        let ghost list = bookmarks_of(self.settings.bookmarks@, source@);
        let added: bool = self.settings.toggle_bookmark(source.as_str(), pos);
        self.bookmark_positions = self.settings.bookmarks_for(source.as_str());
        proof {
            let after = bookmark_lists(self.settings.bookmarks@);
            let wanted = toggled_bookmarks(list, pos);
            assert(after == toggled_lists(given, source@, list, pos));
            assert(after.dom().contains(source@) == self.settings.bookmarks@.dom().contains(
                source@,
            ));
            if wanted.len() == 0 {
                assert(!after.dom().contains(source@));
                assert(self.bookmark_positions@ =~= wanted);
            } else {
                assert(after[source@] == wanted);
                assert(self.bookmark_positions@ =~= wanted);
            }
        }
        Some(
            if added {
                "Marque-page posé"
            } else {
                "Marque-page retiré"
            },
        )
    }

    /// The bookmarks as they are shown.
    pub fn bookmark_labels(&self) -> (r: Vec<String>)
        ensures
            r@.len() == self.bookmark_positions@.len(),
            forall|i: int| 0 <= i < r@.len() ==> (#[trigger] r@[i])@ == bookmark_label(
                i,
                self.bookmark_positions@[i] as int,
            ),
    {
        let mut out: Vec<String> = Vec::new();
        let mut i: usize = 0;
        while i < self.bookmark_positions.len()
            invariant
                i <= self.bookmark_positions@.len(),
                out@.len() == i,
                forall|k: int| 0 <= k < i ==> (#[trigger] out@[k])@ == bookmark_label(
                    k,
                    self.bookmark_positions@[k] as int,
                ),
            decreases self.bookmark_positions@.len() - i,
        {
            let mut label = to_chars("🔖 ");
            let number = write_decimal(i as u64 + 1);
            push_all(&mut label, &number);
            push_text(&mut label, " · ");
            push_text(&mut label, format_time(self.bookmark_positions[i]).as_str());
            out.push(from_chars(&label));
            i = i + 1;
        }
        out
    }

    /// The command that goes to a bookmark.
    pub fn jump_bookmark(&self, engine: &PlayerEngine, index: i32) -> (r: Option<DemuxCommand>)
        ensures
            r == (if list_place(index) < self.bookmark_positions@.len() {
                Some(
                    DemuxCommand::Seek(
                        not_negative(self.bookmark_positions@[list_place(index)]),
                    ),
                )
            } else {
                None
            }),
    {
        let place: usize = place_in_list(index);
        if place < self.bookmark_positions.len() {
            Some(engine.seek(self.bookmark_positions[place]))
        } else {
            None
        }
    }

    /// The command that goes to the beginning of a chapter.
    pub fn select_chapter(&self, engine: &PlayerEngine, index: i32) -> (r: Option<DemuxCommand>)
        ensures
            r == (if list_place(index) < engine.shared.chapters@.len() {
                Some(
                    DemuxCommand::Seek(
                        not_negative(engine.shared.chapters@[list_place(index)].start_us),
                    ),
                )
            } else {
                None
            }),
    {
        let place: usize = place_in_list(index);
        if place < engine.shared.chapters.len() {
            Some(engine.seek(engine.shared.chapters[place].start_us))
        } else {
            None
        }
    }

    /// Takes note of the chapters. Where their number has changed, gives their
    /// names.
    pub fn refresh_chapters(&mut self, chapters: &Vec<ChapterInfo>) -> (r: Option<Vec<String>>)
        ensures
            *final(self) == (App { chapter_count: chapters@.len() as usize, ..*old(self) }),
            r is Some <==> chapters@.len() != old(self).chapter_count,
            r matches Some(labels) ==> {
                &&& labels@.len() == chapters@.len()
                &&& forall|i: int|
                    0 <= i < labels@.len() ==> (#[trigger] labels@[i])@ == chapter_label(
                        i,
                        chapters@[i].title@,
                        chapters@[i].start_us as int,
                    )
            },
    {
        let n: usize = chapters.len();
        if n == self.chapter_count {
            return None;
        }
        self.chapter_count = n;
        let mut out: Vec<String> = Vec::new();
        let mut i: usize = 0;
        while i < chapters.len()
            invariant
                i <= chapters@.len(),
                out@.len() == i,
                forall|k: int|
                    0 <= k < i ==> (#[trigger] out@[k])@ == chapter_label(
                        k,
                        chapters@[k].title@,
                        chapters@[k].start_us as int,
                    ),
            decreases chapters@.len() - i,
        {
            let mut label = write_decimal(i as u64 + 1);
            push_text(&mut label, ". ");
            push_text(&mut label, chapters[i].title.as_str());
            push_text(&mut label, " (");
            push_text(&mut label, format_time(chapters[i].start_us).as_str());
            push_text(&mut label, ")");
            out.push(from_chars(&label));
            i = i + 1;
        }
        Some(out)
    }

    /// Goes to the next way of repeating. Says what to tell the user.
    pub fn cycle_repeat(&mut self) -> (status: &'static str)
        ensures
            *final(self) == (App { repeat_mode: old(self).repeat_mode.after(), ..*old(self) }),
            status@ == (match final(self).repeat_mode {
                RepeatMode::Off => "Répétition : désactivée"@,
                RepeatMode::All => "Répétition : toute la liste"@,
                RepeatMode::One => "Répétition : média courant"@,
            }),
    {
        self.repeat_mode = self.repeat_mode.cycled();
        match self.repeat_mode {
            RepeatMode::Off => "Répétition : désactivée",
            RepeatMode::All => "Répétition : toute la liste",
            RepeatMode::One => "Répétition : média courant",
        }
    }
}

/// What setting the ends of the part that is repeated does.
pub open spec fn toggled_loop(a: Option<i64>, b: Option<i64>, pos: i64) -> (
    Option<i64>,
    Option<i64>,
) {
    match (a, b) {
        (None, _) => (Some(pos), None),
        (Some(x), None) => if pos > x + LOOP_MIN_US {
            (a, Some(pos))
        } else {
            (a, b)
        },
        _ => (None, None),
    }
}

/// Whether the ends of the part that is repeated are in their order: the second
/// one is set after the first one, and lies well behind it.
pub open spec fn is_loop(a: Option<i64>, b: Option<i64>) -> bool {
    match (a, b) {
        (Some(x), Some(y)) => y > x + LOOP_MIN_US,
        (None, Some(_)) => false,
        _ => true,
    }
}

/// The ends of the part that is repeated stay in their order.
pub proof fn law_loop_stays_in_order(a: Option<i64>, b: Option<i64>, pos: i64)
    requires
        is_loop(a, b),
    ensures
        is_loop(toggled_loop(a, b, pos).0, toggled_loop(a, b, pos).1),
{
}

/// Where the end of the part that is repeated was reached one goes back, by more
/// than its least length.
pub proof fn law_loop_goes_back(a: Option<i64>, b: Option<i64>, pos: i64)
    requires
        is_loop(a, b),
    ensures
        looped(a, b, pos) matches Some(target) ==> pos - target > LOOP_MIN_US,
{
}

/// Where to go at a position: from the end of the part that is repeated to its
/// beginning.
pub open spec fn looped(a: Option<i64>, b: Option<i64>, pos: i64) -> Option<i64> {
    match (a, b) {
        (Some(x), Some(y)) => if pos >= y {
            Some(x)
        } else {
            None
        },
        _ => None,
    }
}

// ---- The sleep timer -------------------------------------------------------

/// The next duration of the sleep timer, in minutes.
pub open spec fn next_sleep(minutes: u32) -> u32 {
    if minutes == 0 {
        15
    } else if minutes == 15 {
        30
    } else if minutes == 30 {
        60
    } else if minutes == 60 {
        90
    } else {
        0
    }
}

/// A duration in minutes, as it is shown.
pub open spec fn sleep_text(minutes: u32) -> Seq<char> {
    if minutes == 0 {
        "Off"@
    } else {
        decimal(minutes as nat) + " min"@
    }
}

/// Five steps bring the sleep timer back to where it was off.
pub proof fn law_sleep_timer_cycles()
    ensures
        next_sleep(next_sleep(next_sleep(next_sleep(next_sleep(0))))) == 0,
{
}

impl App {
    /// Sets the sleep timer to its next duration. Says what to tell the user.
    pub fn cycle_sleep_timer(&mut self, at: u64) -> (status: String)
        requires
            at <= u64::MAX - 5_400_000_000,
        ensures
            *final(self) == ({
                let minutes = next_sleep(old(self).sleep_minutes);
                App {
                    sleep_minutes: minutes,
                    sleep_deadline_us: if minutes > 0 {
                        Some((at + minutes * 60_000_000) as u64)
                    } else {
                        None
                    },
                    ..*old(self)
                }
            }),
            status@ == (if final(self).sleep_minutes == 0 {
                "Minuteur de veille désactivé"@
            } else {
                "Minuteur de veille : "@ + decimal(final(self).sleep_minutes as nat) + " min"@
            }),
    {
        let minutes: u32 = match self.sleep_minutes {
            0 => 15,
            15 => 30,
            30 => 60,
            60 => 90,
            _ => 0,
        };
        self.sleep_minutes = minutes;
        if minutes == 0 {
            self.sleep_deadline_us = None;
            return "Minuteur de veille désactivé".to_owned();
        }
        self.sleep_deadline_us = Some(at + minutes as u64 * 60_000_000);
        let mut out = to_chars("Minuteur de veille : ");
        let number = write_decimal(minutes as u64);
        push_all(&mut out, &number);
        push_text(&mut out, " min");
        from_chars(&out)
    }

    /// The duration of the sleep timer, as it is shown.
    pub fn sleep_label(&self) -> (r: String)
        ensures
            r@ == sleep_text(self.sleep_minutes),
    {
        if self.sleep_minutes == 0 {
            "Off".to_owned()
        } else {
            let mut out = write_decimal(self.sleep_minutes as u64);
            push_text(&mut out, " min");
            from_chars(&out)
        }
    }

    /// Ends the sleep timer where its time has come. Says whether that is so, and
    /// the session has to be paused.
    pub fn expire_sleep_timer(&mut self, at: u64) -> (expired: bool)
        ensures
            expired == (old(self).sleep_deadline_us matches Some(d) && at >= d),
            *final(self) == (if expired {
                App { sleep_deadline_us: None, sleep_minutes: 0, ..*old(self) }
            } else {
                *old(self)
            }),
    {
        match self.sleep_deadline_us {
            Some(d) => {
                if at >= d {
                    self.sleep_deadline_us = None;
                    self.sleep_minutes = 0;
                    true
                } else {
                    false
                }
            },
            None => false,
        }
    }

    /// Sets the first end of the part that is repeated, then the second one, then
    /// neither. Says what to tell the user. `position` is missing where nothing
    /// is open.
    pub fn toggle_ab_loop(&mut self, position: Option<i64>) -> (status: &'static str)
        ensures
            match position {
                None => status@ == "Ouvrez d'abord un média"@ && *final(self) == *old(self),
                Some(pos) => {
                    let (a, b) = toggled_loop(old(self).loop_a, old(self).loop_b, pos);
                    &&& *final(self) == (App { loop_a: a, loop_b: b, ..*old(self) })
                    &&& status@ == (match (old(self).loop_a, old(self).loop_b) {
                        (None, _) => "Boucle A-B : point A posé (rappuyez pour B)"@,
                        (Some(_), None) => if b is Some {
                            "Boucle A-B activée"@
                        } else {
                            "Boucle A-B : B doit être après A"@
                        },
                        _ => "Boucle A-B désactivée"@,
                    })
                },
            },
    {
        let pos: i64 = match position {
            Some(p) => p,
            None => return "Ouvrez d'abord un média",
        };
        match (self.loop_a, self.loop_b) {
            (None, _) => {
                self.loop_a = Some(pos);
                self.loop_b = None;
                "Boucle A-B : point A posé (rappuyez pour B)"
            },
            (Some(a), None) => {
                if pos as i128 > a as i128 + LOOP_MIN_US as i128 {
                    self.loop_b = Some(pos);
                    "Boucle A-B activée"
                } else {
                    "Boucle A-B : B doit être après A"
                }
            },
            (Some(_), Some(_)) => {
                self.loop_a = None;
                self.loop_b = None;
                "Boucle A-B désactivée"
            },
        }
    }

    /// How many ends of the part that is repeated are set.
    pub fn ab_loop_indicator(&self) -> (r: i32)
        ensures
            r == (match (self.loop_a, self.loop_b) {
                (Some(_), Some(_)) => 2int,
                (Some(_), None) => 1,
                _ => 0,
            }),
    {
        match (self.loop_a, self.loop_b) {
            (Some(_), Some(_)) => 2,
            (Some(_), None) => 1,
            _ => 0,
        }
    }

    /// Where to go at a position: from the end of the part that is repeated to
    /// its beginning.
    pub fn loop_target(&self, position_us: i64) -> (r: Option<i64>)
        ensures
            r == looped(self.loop_a, self.loop_b, position_us),
    {
        match (self.loop_a, self.loop_b) {
            (Some(a), Some(b)) => {
                if position_us >= b {
                    Some(a)
                } else {
                    None
                }
            },
            _ => None,
        }
    }
}

// ---- Laws ------------------------------------------------------------------

/// The first press sets the beginning of the part that is repeated, the second its
/// end, where that lies more than half a second behind, and the third takes both
/// away.
pub proof fn law_loop_is_set_in_three_steps(pos: i64, later: i64, last: i64)
    ensures
        ({
            let (a, b) = toggled_loop(None, None, pos);
            let (c, d) = toggled_loop(a, b, later);
            &&& a == Some(pos) && b is None
            &&& later - pos > 500_000 ==> c == Some(pos) && d == Some(later)
            &&& later - pos <= 500_000 ==> c == Some(pos) && d is None
            &&& later - pos > 500_000 ==> toggled_loop(c, d, last) == (None::<i64>, None::<i64>)
        }),
{
}

/// The part between the two ends is repeated: one goes back to the beginning at the
/// end, and not before it, nor where an end is missing.
pub proof fn law_loop_repeats_its_part(a: i64, b: i64, pos: i64)
    ensures
        pos >= b ==> looped(Some(a), Some(b), pos) == Some(a),
        pos < b ==> looped(Some(a), Some(b), pos) is None,
        looped(Some(a), None, pos) is None,
        looped(None, None, pos) is None,
{
}

/// The sleep timer goes to a longer duration or off, never beyond an hour and a
/// half, and its durations are quarters of an hour.
pub proof fn law_sleep_timer_grows(minutes: u32)
    ensures
        next_sleep(minutes) > minutes || next_sleep(minutes) == 0,
        next_sleep(minutes) <= 90,
        next_sleep(minutes) % 15 == 0,
        next_sleep(minutes) == 0 <==> minutes != 0 && minutes != 15 && minutes != 30 && minutes
            != 60,
{
}

/// A place in a list is its index, or the first one for what lies before the list.
pub proof fn law_place_is_the_nearest(index: i32)
    ensures
        index >= 0 ==> list_place(index) == index,
        index < 0 ==> list_place(index) == 0,
{
}

/// Marks are shown with their number, the first being one, and their time.
pub proof fn law_marks_are_numbered(place: int, title: Seq<char>, us: int)
    requires
        0 <= place,
    ensures
        bookmark_label(place, us) == "🔖 "@ + decimal((place + 1) as nat) + " · "@ + time_text(us),
        starts_with(chapter_label(place, title, us), decimal((place + 1) as nat)),
        contains(chapter_label(place, title, us), title),
{
    let label = chapter_label(place, title, us);
    let n = decimal((place + 1) as nat);
    assert(label.subrange(0, n.len() as int) == n);
    let k = (n + ". "@).len() as int;
    assert(label.subrange(k, k + title.len()) == title);
    assert(matches_at(label, title, k));
}

/// A sleep timer that is off says so, and one that is set says its minutes.
pub proof fn law_sleep_timer_says_its_minutes(minutes: u32)
    ensures
        sleep_text(0) == "Off"@,
        minutes > 0 ==> sleep_text(minutes) == decimal(minutes as nat) + " min"@,
{
}

} // verus!
