//! The categories of a playlist.

use crate::playlist::item::{Entry, PlaylistItem, entries};
use crate::text::{same, to_chars};
use vstd::prelude::*;

verus! {

/// Whether `a` comes before `b` in the order of their characters.
pub open spec fn precedes(a: Seq<char>, b: Seq<char>) -> bool
    decreases a.len(),
{
    if b.len() == 0 {
        false
    } else if a.len() == 0 {
        true
    } else if a[0] != b[0] {
        (a[0] as int) < (b[0] as int)
    } else {
        precedes(a.skip(1), b.skip(1))
    }
}

/// The number of a character fits in 32 bits.
proof fn lemma_char_number(c: char)
    ensures
        (c as u32) as int == c as int,
{
}

/// Of two different texts one comes first, and only one.
pub proof fn lemma_precedes_total(a: Seq<char>, b: Seq<char>)
    ensures
        a == b ==> !precedes(a, b),
        a != b ==> (precedes(a, b) <==> !precedes(b, a)),
    decreases a.len(),
{
    if a.len() > 0 && b.len() > 0 && a[0] == b[0] {
        lemma_precedes_total(a.skip(1), b.skip(1));
        if a.skip(1) == b.skip(1) {
            assert(a == seq![a[0]] + a.skip(1));
            assert(b == seq![b[0]] + b.skip(1));
        }
    } else if a.len() == 0 && b.len() == 0 {
        assert(a == b);
    } else if a.len() > 0 && b.len() > 0 {
        assert(a[0] as int != b[0] as int);
    }
}

/// What comes before something that comes before comes before.
pub proof fn lemma_precedes_transitive(a: Seq<char>, b: Seq<char>, c: Seq<char>)
    requires
        precedes(a, b),
        precedes(b, c),
    ensures
        precedes(a, c),
    decreases a.len(),
{
    if a.len() > 0 && b.len() > 0 && c.len() > 0 && a[0] == b[0] && b[0] == c[0] {
        lemma_precedes_transitive(a.skip(1), b.skip(1), c.skip(1));
    }
}

/// Whether texts stand in strictly ascending order.
pub open spec fn is_strictly_sorted(s: Seq<Seq<char>>) -> bool {
    forall|i: int, j: int| 0 <= i < j < s.len() ==> precedes(#[trigger] s[i], #[trigger] s[j])
}

/// The texts of a list of characters.
spec fn words(v: Seq<Vec<char>>) -> Seq<Seq<char>> {
    Seq::new(v.len(), |i: int| v[i]@)
}

/// Whether `a` comes before `b`.
pub fn comes_before(a: &[char], b: &[char]) -> (r: bool)
    ensures
        r == precedes(a@, b@),
{
    let mut i: usize = 0;
    assert(a@.skip(0) == a@ && b@.skip(0) == b@);
    while i < a.len() && i < b.len()
        invariant
            i <= a@.len(),
            i <= b@.len(),
            precedes(a@, b@) == precedes(a@.skip(i as int), b@.skip(i as int)),
        decreases a@.len() - i,
    {
        assert(a@.skip(i as int).skip(1) == a@.skip(i + 1));
        assert(b@.skip(i as int).skip(1) == b@.skip(i + 1));
        let x: char = a[i];
        let y: char = b[i];
        if x != y {
            proof {
                lemma_char_number(x);
                lemma_char_number(y);
            }
            return (x as u32) < (y as u32);
        }
        i = i + 1;
    }
    i < b.len()
}

/// Puts a text into a sorted list, unless it is there.
fn insert_word(list: &mut Vec<Vec<char>>, word: Vec<char>)
    requires
        is_strictly_sorted(words(old(list)@)),
    ensures
        is_strictly_sorted(words(final(list)@)),
        forall|w: Seq<char>| #[trigger]
            words(final(list)@).contains(w) <==> words(old(list)@).contains(w) || w == word@,
{
    let ghost given = words(list@);
    let mut at: usize = 0;
    while at < list.len() && comes_before(&list[at], &word)
        invariant
            at <= list@.len(),
            given == words(list@),
            forall|i: int| 0 <= i < at ==> precedes(#[trigger] given[i], word@),
        decreases list@.len() - at,
    {
        assert(given[at as int] == list@[at as int]@);
        at = at + 1;
    }
    if at < list.len() && same(&list[at], &word) {
        assert(given[at as int] == word@);
        return;
    }
    let ghost w0 = word@;
    list.insert(at, word);
    proof {
        let now = words(list@);
        assert(now =~= given.insert(at as int, w0));
        if at < given.len() {
            lemma_precedes_total(given[at as int], w0);
        }
        assert forall|i: int| at <= i < given.len() implies precedes(w0, #[trigger] given[i]) by {
            if i > at {
                assert(precedes(given[at as int], given[i]));
                lemma_precedes_transitive(w0, given[at as int], given[i]);
            }
        }
        assert forall|i: int, j: int| 0 <= i < j < now.len() implies precedes(
            #[trigger] now[i],
            #[trigger] now[j],
        ) by {
            let x = if i < at { i } else { i - 1 };
            let y = if j < at { j } else { j - 1 };
            if i != at && j != at {
                assert(now[i] == given[x] && now[j] == given[y]);
            } else if i == at {
                assert(now[j] == given[y]);
            } else {
                assert(now[i] == given[x]);
            }
        }
        assert forall|w: Seq<char>| #[trigger] now.contains(w) <==> given.contains(w) || w
            == w0 by {
            if given.contains(w) {
                let k = choose|k: int| 0 <= k < given.len() && given[k] == w;
                let j = if k < at { k } else { k + 1 };
                assert(now[j] == w);
            }
            if w == w0 {
                assert(now[at as int] == w);
            }
            if now.contains(w) {
                let j = choose|j: int| 0 <= j < now.len() && now[j] == w;
                if j != at {
                    let k = if j < at { j } else { j - 1 };
                    assert(given[k] == w);
                }
            }
        }
    }
}

/// Whether an entry of the playlist is in a category.
pub open spec fn has_group(items: Seq<Entry>, group: Seq<char>) -> bool {
    exists|i: int| 0 <= i < items.len() && (#[trigger] items[i]).group == group
}

/// The categories of a playlist, sorted, each of them once. Entries without one
/// count for none.
pub fn list_groups(items: &Vec<PlaylistItem>) -> (r: Vec<String>)
    ensures
        is_strictly_sorted(crate::settings::names(r@)),
        forall|g: Seq<char>| #[trigger]
            crate::settings::names(r@).contains(g) <==> g.len() > 0 && has_group(
                entries(items@),
                g,
            ),
{
    let ghost all = entries(items@);
    let mut list: Vec<Vec<char>> = Vec::new();
    let mut i: usize = 0;
    while i < items.len()
        invariant
            i <= items@.len(),
            all == entries(items@),
            is_strictly_sorted(words(list@)),
            forall|g: Seq<char>| #[trigger]
                words(list@).contains(g) <==> g.len() > 0 && has_group(all.take(i as int), g),
        decreases items@.len() - i,
    {
        let group = to_chars(items[i].group.as_str());
        let ghost g0 = group@;
        let ghost before = words(list@);
        if group.len() > 0 {
            insert_word(&mut list, group);
        }
        proof {
            let less = all.take(i as int);
            let more = all.take(i + 1);
            assert(more[i as int] == items@[i as int]@);
            assert forall|g: Seq<char>| #[trigger] words(list@).contains(g) <==> g.len() > 0
                && has_group(more, g) by {
                assert(words(list@).contains(g) <==> before.contains(g) || (g == g0 && g0.len()
                    > 0));
                if has_group(less, g) {
                    let k = choose|k: int| 0 <= k < less.len() && (#[trigger] less[k]).group == g;
                    assert(more[k].group == g);
                }
                if g == g0 {
                    assert(more[i as int].group == g);
                }
                if has_group(more, g) {
                    let k = choose|k: int| 0 <= k < more.len() && (#[trigger] more[k]).group == g;
                    if k < i {
                        assert(less[k].group == g);
                    }
                }
            }
        }
        i = i + 1;
    }
    assert(all.take(items@.len() as int) == all);
    let mut out: Vec<String> = Vec::new();
    let mut k: usize = 0;
    while k < list.len()
        invariant
            k <= list@.len(),
            crate::settings::names(out@) == words(list@).take(k as int),
        decreases list@.len() - k,
    {
        let ghost before = crate::settings::names(out@);
        out.push(crate::text::from_chars(&list[k]));
        assert(words(list@).take(k + 1) =~= before.push(list@[k as int]@));
        assert(crate::settings::names(out@) =~= words(list@).take(k + 1));
        k = k + 1;
    }
    assert(words(list@).take(list@.len() as int) == words(list@));
    out
}

// ---- Laws ------------------------------------------------------------------

/// Of two texts the one comes first that has the smaller character where they first
/// differ, and a text comes before one that goes on behind it.
pub proof fn law_texts_go_by_their_first_difference(
    p: Seq<char>,
    x: char,
    y: char,
    a: Seq<char>,
    b: Seq<char>,
)
    ensures
        (x as u32) < (y as u32) ==> precedes(p + seq![x] + a, p + seq![y] + b),
        (x as u32) > (y as u32) ==> !precedes(p + seq![x] + a, p + seq![y] + b),
        precedes(p, p + seq![y] + b),
        !precedes(p + seq![y] + b, p),
    decreases p.len(),
{
    let (s, t) = (p + seq![x] + a, p + seq![y] + b);
    if p.len() > 0 {
        let q = p.skip(1);
        law_texts_go_by_their_first_difference(q, x, y, a, b);
        assert(s.skip(1) == q + seq![x] + a);
        assert(t.skip(1) == q + seq![y] + b);
    } else {
        lemma_char_number(x);
        lemma_char_number(y);
        assert(s[0] == x && t[0] == y);
    }
}

} // verus!
