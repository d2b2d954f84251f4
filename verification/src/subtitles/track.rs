//! Cues and the tracks that hold them.

use super::markup::{CueStyle, default_style};
use crate::text::{from_chars, join, push_all, push_text, to_chars};
use vstd::prelude::*;

verus! {

// ---- Cues ------------------------------------------------------------------

/// A subtitle cue, bounded in media time (microseconds).
#[derive(Debug, PartialEq)]
pub struct SubtitleCue {
    pub start_us: i64,
    pub end_us: i64,
    pub text: String,
    pub style: CueStyle,
}

/// What a cue says, when and how.
pub struct Cue {
    pub start: int,
    pub end: int,
    pub text: Seq<char>,
    pub style: CueStyle,
}

impl View for SubtitleCue {
    type V = Cue;

    open spec fn view(&self) -> Cue {
        Cue {
            start: self.start_us as int,
            end: self.end_us as int,
            text: self.text@,
            style: self.style,
        }
    }
}

impl Clone for SubtitleCue {
    fn clone(&self) -> (r: Self)
        ensures
            r@ == self@,
    {
        SubtitleCue {
            start_us: self.start_us,
            end_us: self.end_us,
            text: self.text.clone(),
            style: self.style,
        }
    }
}

/// The cue of a plain text: it has the default style.
pub open spec fn plain_cue(start: int, end: int, text: Seq<char>) -> Cue {
    Cue { start, end, text, style: default_style() }
}

/// The cues that the elements of `v` stand for.
pub open spec fn cues(v: Seq<SubtitleCue>) -> Seq<Cue> {
    Seq::new(v.len(), |i: int| v[i]@)
}

impl SubtitleCue {
    /// A cue of plain text, with the default style.
    pub fn plain(start_us: i64, end_us: i64, text: String) -> (cue: Self)
        ensures
            cue@ == plain_cue(start_us as int, end_us as int, text@),
    {
        SubtitleCue { start_us, end_us, text, style: CueStyle::default() }
    }

    /// Whether two cues are the same.
    pub fn same(&self, other: &SubtitleCue) -> (r: bool)
        ensures
            r == (self@ == other@),
    {
        self.start_us == other.start_us && self.end_us == other.end_us && self.text == other.text
            && self.style == other.style
    }
}

// ---- Tracks ----------------------------------------------------------------

/// Whether the cues stand in the order of their starts.
pub open spec fn is_sorted(s: Seq<Cue>) -> bool {
    forall|i: int, j: int| 0 <= i <= j < s.len() ==> (#[trigger] s[i]).start <= (#[trigger] s[j]).start
}

/// How many cues stand before and with the last one that has started at `t`.
pub open spec fn started(s: Seq<Cue>, t: int) -> nat
    decreases s.len(),
{
    if s.len() == 0 {
        0
    } else if s.last().start <= t {
        s.len()
    } else {
        started(s.drop_last(), t)
    }
}

/// `s` with `cue` after all the cues that do not start later.
pub open spec fn placed(s: Seq<Cue>, cue: Cue) -> Seq<Cue> {
    s.insert(started(s, cue.start) as int, cue)
}

/// The cues of `s` in the order of their starts; those that start together
/// keep their order.
pub open spec fn in_order(s: Seq<Cue>) -> Seq<Cue>
    decreases s.len(),
{
    if s.len() == 0 {
        s
    } else {
        placed(in_order(s.drop_last()), s.last())
    }
}

/// `s` with `cue` in its place, unless it is there already.
pub open spec fn inserted(s: Seq<Cue>, cue: Cue) -> Seq<Cue> {
    if s.contains(cue) {
        s
    } else {
        placed(s, cue)
    }
}

/// Whether a cue is shown at time `t`.
pub open spec fn is_active(cue: Cue, t: int) -> bool {
    cue.start <= t < cue.end
}

/// The texts of the cues of `s` that are shown at time `t`.
pub open spec fn active_texts(s: Seq<Cue>, t: int) -> Seq<Seq<char>>
    decreases s.len(),
{
    if s.len() == 0 {
        seq![]
    } else if is_active(s.last(), t) {
        active_texts(s.drop_last(), t).push(s.last().text)
    } else {
        active_texts(s.drop_last(), t)
    }
}

/// The style of the last cue of `s` that is shown at time `t`.
pub open spec fn active_style(s: Seq<Cue>, t: int) -> CueStyle
    decreases s.len(),
{
    if s.len() == 0 {
        default_style()
    } else if is_active(s.last(), t) {
        s.last().style
    } else {
        active_style(s.drop_last(), t)
    }
}

/// A subtitle track, in the order of the starts of its cues.
#[derive(Debug)]
pub struct SubtitleTrack {
    cues: Vec<SubtitleCue>,
}

impl View for SubtitleTrack {
    type V = Seq<Cue>;

    closed spec fn view(&self) -> Seq<Cue> {
        cues(self.cues@)
    }
}

impl Default for SubtitleTrack {
    fn default() -> (track: Self)
        ensures
            track@ == Seq::<Cue>::empty(),
            is_sorted(track@),
    {
        SubtitleTrack { cues: Vec::new() }
    }
}

impl Clone for SubtitleTrack {
    fn clone(&self) -> (r: Self)
        ensures
            r@ == self@,
    {
        let cues = self.cues.clone();
        proof {
            assert forall|i: int| 0 <= i < cues@.len() implies #[trigger] cues@[i]@
                == self.cues@[i]@ by {
                assert(cloned(self.cues@[i], cues@[i]));
            }
        }
        SubtitleTrack { cues }
    }
}

/// In a sorted sequence `started` separates the cues that have started from
/// those that have not.
pub proof fn lemma_started(s: Seq<Cue>, t: int)
    requires
        is_sorted(s),
    ensures
        started(s, t) <= s.len(),
        forall|i: int| 0 <= i < started(s, t) ==> (#[trigger] s[i]).start <= t,
        forall|i: int| started(s, t) <= i < s.len() ==> (#[trigger] s[i]).start > t,
    decreases s.len(),
{
    if s.len() > 0 && s.last().start > t {
        let r = s.drop_last();
        assert(is_sorted(r)) by {
            assert forall|i: int, j: int| 0 <= i <= j < r.len() implies (#[trigger] r[i]).start <= (
            #[trigger] r[j]).start by {
                assert(r[i] == s[i] && r[j] == s[j]);
            }
        }
        lemma_started(r, t);
        assert forall|i: int| 0 <= i < started(s, t) implies (#[trigger] s[i]).start <= t by {
            assert(s[i] == r[i]);
        }
        assert forall|i: int| started(s, t) <= i < s.len() implies (#[trigger] s[i]).start > t by {
            if i < r.len() {
                assert(s[i] == r[i]);
            }
        }
    }
}

/// The separation is unique.
proof fn lemma_started_is(s: Seq<Cue>, t: int, p: nat)
    requires
        is_sorted(s),
        p <= s.len(),
        forall|i: int| 0 <= i < p ==> (#[trigger] s[i]).start <= t,
        forall|i: int| p <= i < s.len() ==> (#[trigger] s[i]).start > t,
    ensures
        started(s, t) == p,
{
    lemma_started(s, t);
    let q = started(s, t);
    if q < p {
        assert(s[q as int].start > t);
    } else if p < q {
        assert(s[p as int].start > t);
    }
}

/// Placing a cue keeps the order.
pub proof fn lemma_placed_sorted(s: Seq<Cue>, cue: Cue)
    requires
        is_sorted(s),
    ensures
        is_sorted(placed(s, cue)),
{
    lemma_started(s, cue.start);
    let p = started(s, cue.start) as int;
    let r = placed(s, cue);
    assert forall|i: int, j: int| 0 <= i <= j < r.len() implies (#[trigger] r[i]).start <= (
    #[trigger] r[j]).start by {
        let si = if i < p { i } else { i - 1 };
        let sj = if j < p { j } else { j - 1 };
        if i != p && j != p {
            assert(r[i] == s[si] && r[j] == s[sj]);
        } else if i == p && j != p {
            assert(r[j] == s[sj]);
        } else if j == p && i != p {
            assert(r[i] == s[si]);
        }
    }
}

/// The cues of a track are sorted however they came.
pub proof fn lemma_in_order_sorted(s: Seq<Cue>)
    ensures
        is_sorted(in_order(s)),
        in_order(s).len() == s.len(),
    decreases s.len(),
{
    if s.len() > 0 {
        lemma_in_order_sorted(s.drop_last());
        lemma_placed_sorted(in_order(s.drop_last()), s.last());
        lemma_started(in_order(s.drop_last()), s.last().start);
    }
}

/// What has not started is not shown.
proof fn lemma_shown_have_started(s: Seq<Cue>, t: int, n: int)
    requires
        0 <= n <= s.len(),
        forall|i: int| n <= i < s.len() ==> (#[trigger] s[i]).start > t,
    ensures
        active_texts(s, t) == active_texts(s.take(n), t),
        active_style(s, t) == active_style(s.take(n), t),
    decreases s.len(),
{
    if n == s.len() {
        assert(s.take(n) == s);
    } else {
        let less = s.drop_last();
        assert(less.take(n) == s.take(n));
        assert(!is_active(s[s.len() - 1], t));
        lemma_shown_have_started(less, t, n);
    }
}

/// How many of the first `n` cues have started at `t`, which are sorted.
fn partition(v: &Vec<SubtitleCue>, n: usize, t: i64) -> (p: usize)
    requires
        n <= v@.len(),
        is_sorted(cues(v@).take(n as int)),
    ensures
        p == started(cues(v@).take(n as int), t as int),
        p <= n,
{
    let ghost s = cues(v@).take(n as int);
    let mut lo: usize = 0;
    let mut hi: usize = n;
    while lo < hi
        invariant
            lo <= hi <= n <= v@.len(),
            s == cues(v@).take(n as int),
            is_sorted(s),
            forall|i: int| 0 <= i < lo ==> (#[trigger] s[i]).start <= t,
            forall|i: int| hi <= i < s.len() ==> (#[trigger] s[i]).start > t,
        decreases hi - lo,
    {
        let mid: usize = lo + (hi - lo) / 2;
        assert(s[mid as int] == v@[mid as int]@);
        if v[mid].start_us <= t {
            lo = mid + 1;
        } else {
            hi = mid;
        }
    }
    proof {
        lemma_started_is(s, t as int, lo as nat);
    }
    lo
}

impl SubtitleTrack {
    /// The track of `cues`, whatever their order.
    pub fn new(cues: Vec<SubtitleCue>) -> (track: Self)
        ensures
            track@ == in_order(self::cues(cues@)),
            is_sorted(track@),
    {
        let mut list = cues;
        let ghost given = self::cues(list@);
        let n: usize = list.len();
        let mut i: usize = 0;
        while i < n
            invariant
                i <= n,
                n == list@.len(),
                n == given.len(),
                self::cues(list@).take(i as int) == in_order(given.take(i as int)),
                self::cues(list@).skip(i as int) == given.skip(i as int),
            decreases n - i,
        {
            let ghost before = self::cues(list@);
            let ghost head = before.take(i as int);
            proof {
                lemma_in_order_sorted(given.take(i as int));
                assert(given.take(i + 1).drop_last() == given.take(i as int));
                assert(before[i as int] == before.skip(i as int)[0]);
                assert(given[i as int] == given.skip(i as int)[0]);
                assert(given.take(i + 1).last() == before[i as int]);
                assert(list@[i as int]@ == before[i as int]);
            }
            let p: usize = partition(&list, i, list[i].start_us);
            let cue = list.remove(i);
            let ghost taken = self::cues(list@);
            assert(taken == before.remove(i as int));
            list.insert(p, cue);
            proof {
                let after = self::cues(list@);
                assert(after == taken.insert(p as int, cue@));
                assert(after.take(i + 1) == placed(head, cue@));
                assert(after.skip(i + 1) == given.skip(i + 1)) by {
                    assert forall|k: int| 0 <= k < n - i - 1 implies #[trigger] after.skip(i + 1)[k]
                        == given.skip(i + 1)[k] by {
                        assert(before.skip(i as int)[k + 1] == given.skip(i as int)[k + 1]);
                    }
                }
            }
            i = i + 1;
        }
        proof {
            lemma_in_order_sorted(given);
            assert(given.take(n as int) == given);
            assert(self::cues(list@).take(n as int) == self::cues(list@));
        }
        SubtitleTrack { cues: list }
    }

    /// Whether the track has no cue.
    pub fn is_empty(&self) -> (r: bool)
        ensures
            r == (self@.len() == 0),
    {
        self.cues.len() == 0
    }

    /// The number of cues.
    pub fn len(&self) -> (n: usize)
        ensures
            n == self@.len(),
    {
        self.cues.len()
    }

    /// Puts a cue in its place. Some streams repeat their cues after a seek:
    /// an exact duplicate is not kept.
    pub fn insert(&mut self, cue: SubtitleCue)
        requires
            is_sorted(old(self)@),
        ensures
            final(self)@ == inserted(old(self)@, cue@),
            is_sorted(final(self)@),
    {
        let n: usize = self.cues.len();
        let ghost s = self@;
        assert(cues(self.cues@).take(n as int) == s);
        let p: usize = partition(&self.cues, n, cue.start_us);
        proof {
            lemma_started(s, cue.start_us as int);
        }
        let mut i: usize = p;
        while i > 0 && self.cues[i - 1].start_us == cue.start_us
            invariant
                i <= p <= self.cues@.len(),
                self@ == s,
                is_sorted(s),
                *self == *old(self),
                forall|k: int| i <= k < p ==> #[trigger] s[k] != cue@,
            decreases i,
        {
            i = i - 1;
            assert(s[i as int] == self.cues@[i as int]@);
            if self.cues[i].same(&cue) {
                return;
            }
        }
        proof {
            assert forall|k: int| 0 <= k < s.len() implies #[trigger] s[k] != cue@ by {
                if k < i {
                    assert(s[i - 1] == self.cues@[i - 1]@);
                    assert(s[k].start <= s[i - 1].start);
                }
            }
            assert(!s.contains(cue@));
            lemma_placed_sorted(s, cue@);
        }
        let ghost c = cue@;
        self.cues.insert(p, cue);
        assert(self@ == s.insert(p as int, c));
    }

    /// The text to show at time `t_us`: the cues that are active together,
    /// joined by line breaks.
    pub fn query(&self, t_us: i64) -> (r: Option<String>)
        requires
            is_sorted(self@),
        ensures
            r matches Some(text) ==> text@ == join(active_texts(self@, t_us as int), "\n"@),
            r is Some <==> active_texts(self@, t_us as int).len() > 0,
    {
        let n: usize = self.cues.len();
        let ghost s = self@;
        assert(cues(self.cues@).take(n as int) == s);
        let end: usize = partition(&self.cues, n, t_us);
        let mut out: Vec<char> = Vec::new();
        let mut found: bool = false;
        let mut i: usize = 0;
        assert(s.take(0) == Seq::<Cue>::empty());
        while i < end
            invariant
                i <= end <= self.cues@.len(),
                s == self@,
                out@ == join(active_texts(s.take(i as int), t_us as int), "\n"@),
                found == (active_texts(s.take(i as int), t_us as int).len() > 0),
            decreases end - i,
        {
            let ghost next = s.take(i + 1);
            let ghost old_texts = active_texts(s.take(i as int), t_us as int);
            assert(next.drop_last() == s.take(i as int));
            assert(next.last() == self.cues@[i as int]@);
            if self.cues[i].start_us <= t_us && t_us < self.cues[i].end_us {
                if found {
                    push_text(&mut out, "\n");
                }
                let chars = to_chars(self.cues[i].text.as_str());
                push_all(&mut out, &chars);
                found = true;
                proof {
                    let all = active_texts(next, t_us as int);
                    assert(all == old_texts.push(chars@));
                    assert(all.drop_last() == old_texts);
                    if old_texts.len() == 0 {
                        assert(out@ == all[0]);
                    }
                }
            }
            i = i + 1;
        }
        proof {
            lemma_started(s, t_us as int);
            lemma_shown_have_started(s, t_us as int, end as int);
        }
        if found {
            Some(from_chars(&out))
        } else {
            None
        }
    }

    /// The style of the cue that is active at time `t_us`, the last one where
    /// several are; the default style where none is.
    pub fn query_style(&self, t_us: i64) -> (style: CueStyle)
        requires
            is_sorted(self@),
        ensures
            style == active_style(self@, t_us as int),
    {
        let n: usize = self.cues.len();
        let ghost s = self@;
        assert(cues(self.cues@).take(n as int) == s);
        let end: usize = partition(&self.cues, n, t_us);
        proof {
            lemma_started(s, t_us as int);
            lemma_shown_have_started(s, t_us as int, end as int);
        }
        let mut i: usize = end;
        while i > 0
            invariant
                i <= end <= self.cues@.len(),
                s == self@,
                active_style(s, t_us as int) == active_style(s.take(i as int), t_us as int),
            decreases i,
        {
            i = i - 1;
            let ghost seen = s.take(i + 1);
            assert(seen.drop_last() == s.take(i as int));
            assert(seen.last() == self.cues@[i as int]@);
            if self.cues[i].start_us <= t_us && t_us < self.cues[i].end_us {
                return self.cues[i].style;
            }
        }
        CueStyle::default()
    }
}

// ---- Laws ------------------------------------------------------------------

/// Ordering cues neither loses one nor adds one.
pub proof fn law_in_order_is_permutation(s: Seq<Cue>)
    ensures
        in_order(s).to_multiset() == s.to_multiset(),
    decreases s.len(),
{
    if s.len() > 0 {
        let r = s.drop_last();
        law_in_order_is_permutation(r);
        lemma_in_order_sorted(r);
        let o = in_order(r);
        lemma_started(o, s.last().start);
        let p = started(o, s.last().start) as int;
        vstd::seq_lib::to_multiset_insert(o, p, s.last());
        assert(s == r.push(s.last()));
        vstd::seq_lib::to_multiset_build(r, s.last());
    } else {
        assert(in_order(s) == s);
    }
}

/// The cues of `s` that start at `t`, in their order.
pub open spec fn starting_at(s: Seq<Cue>, t: int) -> Seq<Cue>
    decreases s.len(),
{
    if s.len() == 0 {
        s
    } else if s.last().start == t {
        starting_at(s.drop_last(), t).push(s.last())
    } else {
        starting_at(s.drop_last(), t)
    }
}

proof fn lemma_starting_at_concat(a: Seq<Cue>, b: Seq<Cue>, t: int)
    ensures
        starting_at(a + b, t) == starting_at(a, t) + starting_at(b, t),
    decreases b.len(),
{
    if b.len() == 0 {
        assert(a + b == a);
    } else {
        lemma_starting_at_concat(a, b.drop_last(), t);
        assert((a + b).drop_last() == a + b.drop_last());
    }
}

proof fn lemma_none_starting_at(s: Seq<Cue>, t: int)
    requires
        forall|i: int| 0 <= i < s.len() ==> (#[trigger] s[i]).start != t,
    ensures
        starting_at(s, t).len() == 0,
    decreases s.len(),
{
    if s.len() > 0 {
        lemma_none_starting_at(s.drop_last(), t);
    }
}

/// Cues that start together stay in the order in which they were given.
pub proof fn law_in_order_is_stable(s: Seq<Cue>, t: int)
    ensures
        starting_at(in_order(s), t) == starting_at(s, t),
    decreases s.len(),
{
    if s.len() > 0 {
        let r = s.drop_last();
        let c = s.last();
        law_in_order_is_stable(r, t);
        lemma_in_order_sorted(r);
        let o = in_order(r);
        lemma_started(o, c.start);
        let p = started(o, c.start) as int;
        let one = seq![c];
        assert(o == o.take(p) + o.skip(p));
        assert(placed(o, c) == (o.take(p) + one) + o.skip(p));
        lemma_starting_at_concat(o.take(p), o.skip(p), t);
        lemma_starting_at_concat(o.take(p) + one, o.skip(p), t);
        lemma_starting_at_concat(o.take(p), one, t);
        assert(one.drop_last() == Seq::<Cue>::empty());
        assert(starting_at(one.drop_last(), t) == Seq::<Cue>::empty());
        if c.start == t {
            assert(starting_at(one, t) == one);
            lemma_none_starting_at(o.skip(p), t);
        }
    }
}

/// Inserting a cue that is there already, wherever it stands, changes nothing; so
/// inserting the same cue twice is inserting it once.
pub proof fn law_insert_is_idempotent(s: Seq<Cue>, cue: Cue)
    requires
        is_sorted(s),
    ensures
        s.contains(cue) ==> inserted(s, cue) == s,
        inserted(inserted(s, cue), cue) == inserted(s, cue),
{
    law_insert_keeps_the_others(s, cue);
}

/// Inserting a cue adds it or, where it is already there, changes nothing.
pub proof fn law_insert_keeps_the_others(s: Seq<Cue>, cue: Cue)
    requires
        is_sorted(s),
    ensures
        is_sorted(inserted(s, cue)),
        inserted(s, cue).contains(cue),
        inserted(s, cue) == s || inserted(s, cue).to_multiset() == s.to_multiset().insert(cue),
{
    lemma_started(s, cue.start);
    lemma_placed_sorted(s, cue);
    let p = started(s, cue.start) as int;
    vstd::seq_lib::to_multiset_insert(s, p, cue);
    if !s.contains(cue) {
        assert(inserted(s, cue)[p] == cue);
    }
}

/// A track that holds no cue twice does not come to hold one twice.
pub proof fn law_insert_makes_no_duplicate(s: Seq<Cue>, cue: Cue)
    requires
        is_sorted(s),
        s.no_duplicates(),
    ensures
        inserted(s, cue).no_duplicates(),
{
    lemma_started(s, cue.start);
    let p = started(s, cue.start) as int;
    let r = inserted(s, cue);
    if !s.contains(cue) {
        assert forall|i: int, j: int| 0 <= i < r.len() && 0 <= j < r.len() && i != j implies r[i]
            != r[j] by {
            let a = if i < p { i } else { i - 1 };
            let b = if j < p { j } else { j - 1 };
            if i == p {
                assert(s.contains(s[b]));
            } else if j == p {
                assert(s.contains(s[a]));
            } else {
                assert(s[a] != s[b]);
            }
        }
    }
}

/// Every cue that is active is shown.
pub proof fn law_active_cue_is_shown(s: Seq<Cue>, t: int, i: int)
    requires
        0 <= i < s.len(),
        is_active(s[i], t),
    ensures
        active_texts(s, t).contains(s[i].text),
{
    lemma_active_text(s, t, i);
}

proof fn lemma_active_text(s: Seq<Cue>, t: int, i: int)
    requires
        0 <= i < s.len(),
        is_active(s[i], t),
    ensures
        active_texts(s, t).contains(s[i].text),
    decreases s.len(),
{
    let all = active_texts(s, t);
    if i == s.len() - 1 {
        assert(all[all.len() - 1] == s[i].text);
    } else {
        lemma_active_text(s.drop_last(), t, i);
        let less = active_texts(s.drop_last(), t);
        let k = choose|k: int| 0 <= k < less.len() && less[k] == s[i].text;
        assert(all[k] == s[i].text);
    }
}

/// The texts that are shown are those of the cues that have begun and have not
/// ended, each once and in the order of the cues.
pub proof fn law_shown_texts_follow_the_cues(a: Seq<Cue>, c: Cue, b: Seq<Cue>, t: int)
    ensures
        active_texts(seq![], t) == Seq::<Seq<char>>::empty(),
        c.start <= t < c.end ==> active_texts(a + seq![c] + b, t) == active_texts(a, t) + seq![
            c.text,
        ] + active_texts(b, t),
        !(c.start <= t < c.end) ==> active_texts(a + seq![c] + b, t) == active_texts(a, t)
            + active_texts(b, t),
    decreases b.len(),
{
    let with = a + seq![c] + b;
    if b.len() == 0 {
        assert(with.drop_last() == a);
        assert(with.last() == c);
        assert(active_texts(b, t) == Seq::<Seq<char>>::empty());
    } else {
        law_shown_texts_follow_the_cues(a, c, b.drop_last(), t);
        assert(with.drop_last() == a + seq![c] + b.drop_last());
        assert(with.last() == b.last());
    }
}

/// The style that is shown is that of the last cue that is shown; a cue that is not
/// shown makes no difference, and without one the style is the default one.
pub proof fn law_shown_style_is_the_last(a: Seq<Cue>, c: Cue, b: Seq<Cue>, t: int)
    requires
        forall|i: int| 0 <= i < b.len() ==> !((#[trigger] b[i]).start <= t < b[i].end),
    ensures
        c.start <= t < c.end ==> active_style(a + seq![c] + b, t) == c.style,
        !(c.start <= t < c.end) ==> active_style(a + seq![c] + b, t) == active_style(a, t),
        active_style(b, t) == (CueStyle { align: 2, bold: false, italic: false, color: None }),
    decreases b.len(),
{
    let with = a + seq![c] + b;
    if b.len() == 0 {
        assert(with.drop_last() == a);
        assert(with.last() == c);
    } else {
        let less = b.drop_last();
        assert forall|i: int| 0 <= i < less.len() implies !((#[trigger] less[i]).start <= t
            < less[i].end) by {
            assert(less[i] == b[i]);
        }
        law_shown_style_is_the_last(a, c, less, t);
        assert(with.drop_last() == a + seq![c] + less);
        assert(with.last() == b.last());
        assert(b.last() == b[b.len() - 1]);
    }
}

/// A track is ordered by the starts of its cues.
pub proof fn law_in_order_is_sorted(s: Seq<Cue>, i: int, j: int)
    requires
        0 <= i <= j < in_order(s).len(),
    ensures
        in_order(s)[i].start <= in_order(s)[j].start,
{
    lemma_in_order_sorted(s);
}

} // verus!
