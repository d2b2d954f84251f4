//! Facts about texts that are joined and taken apart.

use crate::streaming::lemma_join_first;
use crate::text::{
    contains, find, is_space, join, lemma_find, lemma_find_is, lemma_first_line, lemma_lines_concat,
    lemma_rfind_upto, lines, lowered, matches_at, rfind, rsplit_once, split, split_once, splitn,
    strip_cr, trim, trim_end, trim_end_char, trim_start, trim_start_char,
};
use vstd::prelude::*;

verus! {

/// A character that a text does not hold is not found in it.
pub proof fn lemma_char_is_absent(s: Seq<char>, c: char)
    requires
        !s.contains(c),
    ensures
        find(s, seq![c]) is None,
        split_once(s, seq![c]) is None,
        rsplit_once(s, seq![c]) is None,
{
    lemma_find(s, seq![c]);
    lemma_rfind_upto(s, seq![c], s.len() - 1);
    assert forall|i: int| !#[trigger] matches_at(s, seq![c], i) by {
        if matches_at(s, seq![c], i) {
            assert(s.subrange(i, i + 1)[0] == c);
            assert(s.contains(s[i]));
        }
    }
}

/// A text is cut at the first of the characters that it is cut at.
pub proof fn lemma_cut_at_first(before: Seq<char>, c: char, after: Seq<char>)
    requires
        !before.contains(c),
    ensures
        split_once(before + seq![c] + after, seq![c]) == Some((before, after)),
{
    let s = before + seq![c] + after;
    let at = before.len() as int;
    assert(s.subrange(at, at + 1) == seq![c]);
    assert forall|k: int| 0 <= k < at implies !#[trigger] matches_at(s, seq![c], k) by {
        if matches_at(s, seq![c], k) {
            assert(s.subrange(k, k + 1)[0] == c);
            assert(before[k] == s[k]);
            assert(before.contains(before[k]));
        }
    }
    lemma_find_is(s, seq![c], at);
    assert(s.take(at) == before);
    assert(s.skip(at + 1) == after);
}

/// A text is cut from behind at the last of the characters that it is cut at.
pub proof fn lemma_cut_at_last(before: Seq<char>, c: char, after: Seq<char>)
    requires
        !after.contains(c),
    ensures
        rsplit_once(before + seq![c] + after, seq![c]) == Some((before, after)),
{
    let s = before + seq![c] + after;
    let at = before.len() as int;
    lemma_rfind_upto(s, seq![c], s.len() - 1);
    assert(s.subrange(at, at + 1) == seq![c]);
    assert(matches_at(s, seq![c], at));
    let f = rfind(s, seq![c])->0;
    if f > at {
        assert(s.subrange(f, f + 1)[0] == c);
        assert(after[f - at - 1] == s[f]);
        assert(after.contains(after[f - at - 1]));
    }
    assert(s.take(at) == before);
    assert(s.skip(at + 1) == after);
}

/// What a character joins, it splits again.
pub proof fn lemma_split_join(parts: Seq<Seq<char>>, c: char)
    requires
        parts.len() > 0,
        forall|i: int| 0 <= i < parts.len() ==> !(#[trigger] parts[i]).contains(c),
    ensures
        split(join(parts, seq![c]), seq![c]) == parts,
    decreases parts.len(),
{
    let whole = join(parts, seq![c]);
    let first = parts[0];
    assert(!first.contains(c));
    if parts.len() == 1 {
        lemma_char_is_absent(first, c);
        assert(parts == seq![first]);
    } else {
        let rest = parts.skip(1);
        lemma_join_first(parts, seq![c]);
        assert forall|i: int| 0 <= i < rest.len() implies !(#[trigger] rest[i]).contains(c) by {
            assert(rest[i] == parts[i + 1]);
        }
        lemma_split_join(rest, c);
        lemma_cut_at_first(first, c, join(rest, seq![c]));
        assert(parts == seq![first] + rest);
    }
}

/// Three texts joined.
pub proof fn lemma_join_of_three(a: Seq<char>, b: Seq<char>, c: Seq<char>, sep: Seq<char>)
    ensures
        join(seq![a, b, c], sep) == a + sep + b + sep + c,
        join(seq![a, b], sep) == a + sep + b,
{
    assert(seq![a, b].drop_last() == seq![a]);
    assert(seq![a, b, c].drop_last() == seq![a, b]);
    assert(join(seq![a], sep) == a);
    assert(join(seq![a, b], sep) == a + sep + b);
}

/// A text that is split into a number of parts keeps in the last one whatever is
/// left.
pub proof fn lemma_splitn_join(parts: Seq<Seq<char>>, rest: Seq<char>, c: char)
    requires
        forall|i: int| 0 <= i < parts.len() ==> !(#[trigger] parts[i]).contains(c),
    ensures
        splitn(join(parts.push(rest), seq![c]), parts.len() + 1, seq![c]) == parts.push(rest),
    decreases parts.len(),
{
    let all = parts.push(rest);
    if parts.len() == 0 {
        assert(all == seq![rest]);
    } else {
        let first = parts[0];
        let tail = parts.skip(1);
        assert(!first.contains(c));
        lemma_join_first(all, seq![c]);
        assert(all.skip(1) == tail.push(rest));
        assert forall|i: int| 0 <= i < tail.len() implies !(#[trigger] tail[i]).contains(c) by {
            assert(tail[i] == parts[i + 1]);
        }
        lemma_splitn_join(tail, rest, c);
        lemma_cut_at_first(first, c, join(tail.push(rest), seq![c]));
        assert(seq![first] + tail.push(rest) == all);
    }
}

// ---- Laws ------------------------------------------------------------------

/// Whether a text holds nothing but white space.
pub open spec fn is_white(s: Seq<char>) -> bool {
    forall|i: int| 0 <= i < s.len() ==> is_space(#[trigger] s[i])
}

proof fn lemma_white_start(a: Seq<char>, t: Seq<char>)
    requires
        is_white(a),
    ensures
        trim_start(a + t) == trim_start(t),
    decreases a.len(),
{
    if a.len() == 0 {
        assert(a + t == t);
    } else {
        let rest = a.drop_first();
        assert forall|i: int| 0 <= i < rest.len() implies is_space(#[trigger] rest[i]) by {
            assert(rest[i] == a[i + 1]);
        }
        lemma_white_start(rest, t);
        assert(is_space(a[0]));
        assert((a + t).drop_first() == rest + t);
    }
}

proof fn lemma_white_end(t: Seq<char>, b: Seq<char>)
    requires
        is_white(b),
    ensures
        trim_end(t + b) == trim_end(t),
    decreases b.len(),
{
    if b.len() == 0 {
        assert(t + b == t);
    } else {
        let less = b.drop_last();
        assert forall|i: int| 0 <= i < less.len() implies is_space(#[trigger] less[i]) by {
            assert(less[i] == b[i]);
        }
        lemma_white_end(t, less);
        assert(is_space(b[b.len() - 1]));
        assert((t + b).drop_last() == t + less);
    }
}

/// Trimming takes away the white space at both ends and nothing else.
pub proof fn law_trim_takes_the_white_space(a: Seq<char>, t: Seq<char>, b: Seq<char>)
    requires
        is_white(a),
        is_white(b),
        t.len() > 0 ==> !is_space(t[0]) && !is_space(t.last()),
    ensures
        trim(a + t + b) == t,
{
    lemma_white_start(a, t + b);
    assert(a + t + b == a + (t + b));
    if t.len() > 0 {
        assert((t + b)[0] == t[0]);
        assert(trim_start(t + b) == t + b);
        lemma_white_end(t, b);
    } else {
        assert(t + b == b);
        lemma_white_start(b, t);
        assert(b + t == b);
        assert(trim_start(t) == t);
    }
}

/// The white space of ASCII is white space, and what can be seen of it is none; beyond
/// ASCII the spaces of typography are, and those without a width are not.
pub proof fn law_ascii_white_space(c: char)
    ensures
        c == ' ' || c == '\t' || c == '\n' || c == '\r' ==> is_space(c),
        0x21 <= c as u32 <= 0x7e ==> !is_space(c),
        c == '\u{85}' || c == '\u{a0}' || c == '\u{2028}' || c == '\u{2029}' || c == '\u{3000}'
            ==> is_space(c),
        0x2000 <= c as u32 <= 0x200a ==> is_space(c),
        c as u32 > 0x3000 || c == '\u{200b}' || c == '\u{feff}' ==> !is_space(c),
{
}

/// Lower case changes the capital letters of ASCII into the small ones, character by
/// character, and nothing else; doing so twice is doing it once.
pub proof fn law_lower_case(s: Seq<char>, i: int)
    requires
        0 <= i < s.len(),
    ensures
        lowered(s).len() == s.len(),
        'A' as u32 <= s[i] as u32 <= 'Z' as u32 ==> lowered(s)[i] as u32 == s[i] as u32 + 32,
        !('A' as u32 <= s[i] as u32 <= 'Z' as u32) ==> lowered(s)[i] == s[i],
        lowered(lowered(s)) == lowered(s),
{
    assert(lowered(lowered(s)) == lowered(s));
}

/// The pieces of a text, joined again, are the text, and none of them holds what it was
/// split at.
pub proof fn law_split_loses_nothing(s: Seq<char>, c: char)
    ensures
        split(s, seq![c]).len() > 0,
        join(split(s, seq![c]), seq![c]) == s,
        forall|i: int|
            0 <= i < split(s, seq![c]).len() ==> !(#[trigger] split(s, seq![c])[i]).contains(c),
    decreases s.len(),
{
    let sep = seq![c];
    lemma_find(s, sep);
    if let Some((before, after)) = split_once(s, sep) {
        let at = find(s, sep)->0;
        assert(s.subrange(at, at + 1)[0] == s[at]);
        assert(s == before + sep + after);
        law_split_loses_nothing(after, c);
        let rest = split(after, sep);
        let all = split(s, sep);
        assert(all == seq![before] + rest);
        assert(!before.contains(c)) by {
            if before.contains(c) {
                let k = choose|k: int| 0 <= k < before.len() && before[k] == c;
                assert(s.subrange(k, k + 1) == sep);
                assert(matches_at(s, sep, k));
            }
        }
        lemma_join_first(all, sep);
        assert(all.skip(1) == rest);
        assert forall|i: int| 0 <= i < all.len() implies !(#[trigger] all[i]).contains(c) by {
            if i > 0 {
                assert(all[i] == rest[i - 1]);
            }
        }
    } else {
        assert(split(s, sep) == seq![s]);
        if s.contains(c) {
            let k = choose|k: int| 0 <= k < s.len() && s[k] == c;
            assert(s.subrange(k, k + 1) == sep);
            assert(matches_at(s, sep, k));
        }
    }
}

/// What is searched is found at its first place, and only where it stands.
pub proof fn law_search_finds_the_first(s: Seq<char>, p: Seq<char>, i: int)
    requires
        0 <= i,
        i + p.len() <= s.len(),
        s.subrange(i, i + p.len()) == p,
    ensures
        contains(s, p),
        find(s, p) matches Some(j) && 0 <= j <= i && s.subrange(j, j + p.len()) == p,
{
    lemma_find(s, p);
    assert(matches_at(s, p, i));
}

/// Taking a character from the end takes all of them and nothing else.
pub proof fn law_trailing_characters_go(s: Seq<char>, c: char, n: nat)
    requires
        s.len() == 0 || s.last() != c,
    ensures
        trim_end_char(s + Seq::new(n, |i: int| c), c) == s,
    decreases n,
{
    let whole = s + Seq::new(n, |i: int| c);
    if n > 0 {
        law_trailing_characters_go(s, c, (n - 1) as nat);
        assert(whole.drop_last() == s + Seq::new((n - 1) as nat, |i: int| c));
    } else {
        assert(whole == s);
    }
}

/// Taking a character from the beginning takes all of them and nothing else.
pub proof fn law_leading_characters_go(s: Seq<char>, c: char, n: nat)
    requires
        s.len() == 0 || s[0] != c,
    ensures
        trim_start_char(Seq::new(n, |i: int| c) + s, c) == s,
    decreases n,
{
    let whole = Seq::new(n, |i: int| c) + s;
    if n > 0 {
        law_leading_characters_go(s, c, (n - 1) as nat);
        assert(whole.drop_first() == Seq::new((n - 1) as nat, |i: int| c) + s);
    } else {
        assert(whole == s);
    }
}

/// Lines are found again in the text that they were written to, one below the other.
pub proof fn law_lines_are_found_again(ls: Seq<Seq<char>>)
    requires
        forall|i: int|
            0 <= i < ls.len() ==> !(#[trigger] ls[i]).contains('\n') && !ls[i].contains('\r'),
    ensures
        lines(ended(ls, seq!['\n'])) == ls,
        lines(ended(ls, seq!['\r', '\n'])) == ls,
    decreases ls.len(),
{
    let (lf, crlf) = (seq!['\n'], seq!['\r', '\n']);
    if ls.len() == 0 {
        assert(ls == Seq::<Seq<char>>::empty());
    } else {
        let less = ls.drop_last();
        let last = ls.last();
        assert(!ls[ls.len() - 1].contains('\n') && !ls[ls.len() - 1].contains('\r'));
        assert forall|i: int| 0 <= i < less.len() implies !(#[trigger] less[i]).contains('\n')
            && !less[i].contains('\r') by {
            assert(less[i] == ls[i]);
        }
        law_lines_are_found_again(less);
        let none = Seq::<char>::empty();
        assert(lines(none) == Seq::<Seq<char>>::empty());
        lemma_lines_concat(ended(less, lf), last + lf);
        lemma_lines_concat(ended(less, crlf), last + crlf);
        lemma_first_line(last, none);
        assert(last + lf == last + lf + none);
        assert(strip_cr(last) == last) by {
            if last.len() > 0 {
                assert(last.contains(last.last()));
            }
        }
        let with = last + seq!['\r'];
        assert(!with.contains('\n')) by {
            if with.contains('\n') {
                let k = choose|k: int| 0 <= k < with.len() && with[k] == '\n';
                assert(last.contains(last[k]));
            }
        }
        lemma_first_line(with, none);
        assert(last + crlf == with + lf + none);
        assert(strip_cr(with) == last) by {
            assert(with.drop_last() == last);
        }
        assert(less + seq![last] == ls);
        assert(seq![last] + Seq::<Seq<char>>::empty() == seq![last]);
        assert(ended(ls, lf) == ended(less, lf) + (last + lf));
        assert(ended(ls, crlf) == ended(less, crlf) + (last + crlf));
    }
}

/// Lines, each with its ending.
pub open spec fn ended(ls: Seq<Seq<char>>, ending: Seq<char>) -> Seq<char>
    decreases ls.len(),
{
    if ls.len() == 0 {
        seq![]
    } else {
        ended(ls.drop_last(), ending) + ls.last() + ending
    }
}

} // verus!
