//! The timestamps of subtitle files.

use crate::number::{
    decimal, is_digit, is_number, law_padding_keeps_the_number, law_small_numbers_are_short,
    parse_signed, read_i64, zero_padded,
};
use crate::text::{
    cut, is_space, lemma_trim_keeps, part, rcut, rsplit_once, split, split_once, split_text, texts,
    trim, trim_end, trim_start, trimmed,
};
use crate::text_facts::{
    lemma_char_is_absent, lemma_cut_at_first, lemma_cut_at_last, lemma_join_of_three,
    lemma_split_join,
};
use vstd::prelude::*;

verus! {

/// Whether `n` is a 64-bit signed integer.
pub open spec fn fits(n: int) -> bool {
    i64::MIN <= n <= i64::MAX
}

/// The microseconds of a position given in hours, minutes, seconds and a
/// fraction: a second has `per_second` fractions, each of `us` microseconds.
/// There are none where a step of the sum leaves the 64-bit integers.
pub open spec fn position_us(
    h: int,
    m: int,
    s: int,
    fraction: int,
    per_second: int,
    us: int,
) -> Option<int> {
    let seconds = h * 3600 + m * 60 + s;
    let fractions = seconds * per_second + fraction;
    if fits(h * 3600) && fits(m * 60) && fits(h * 3600 + m * 60) && fits(seconds) && fits(
        seconds * per_second,
    ) && fits(fractions) && fits(fractions * us) {
        Some(fractions * us)
    } else {
        None
    }
}

/// The microseconds of a position, each step of the sum checked.
fn position(h: i64, m: i64, s: i64, fraction: i64, per_second: i64, us: i64) -> (r: Option<i64>)
    ensures
        r matches Some(t) ==> position_us(
            h as int,
            m as int,
            s as int,
            fraction as int,
            per_second as int,
            us as int,
        ) == Some(t as int),
        r is None ==> position_us(
            h as int,
            m as int,
            s as int,
            fraction as int,
            per_second as int,
            us as int,
        ) is None,
{
    let hours: i64 = match h.checked_mul(3600) {
        Some(v) => v,
        None => return None,
    };
    let minutes: i64 = match m.checked_mul(60) {
        Some(v) => v,
        None => return None,
    };
    let whole: i64 = match hours.checked_add(minutes) {
        Some(v) => v,
        None => return None,
    };
    let seconds: i64 = match whole.checked_add(s) {
        Some(v) => v,
        None => return None,
    };
    let scaled: i64 = match seconds.checked_mul(per_second) {
        Some(v) => v,
        None => return None,
    };
    let fractions: i64 = match scaled.checked_add(fraction) {
        Some(v) => v,
        None => return None,
    };
    fractions.checked_mul(us)
}

/// At most the first three characters of `s`.
pub open spec fn first_three(s: Seq<char>) -> Seq<char> {
    if s.len() > 3 {
        s.take(3)
    } else {
        s
    }
}

/// The microseconds of `HH:MM:SS,mmm`, `HH:MM:SS.mmm` or `MM:SS.mmm`.
pub open spec fn timestamp_us(ts: Seq<char>) -> Option<int> {
    let t = trim(ts);
    let halves = match rsplit_once(t, seq![',']) {
        Some(h) => Some(h),
        None => rsplit_once(t, seq!['.']),
    };
    match halves {
        None => None,
        Some((hms, ms)) => {
            let parts = split(hms, seq![':']);
            let last = parts.len() - 1;
            let h = if parts.len() == 3 {
                parse_signed(trim(parts[0]))
            } else {
                Some(0)
            };
            let m = if parts.len() == 3 {
                parse_signed(parts[1])
            } else {
                parse_signed(trim(parts[0]))
            };
            match (parse_signed(first_three(trim(ms))), h, m, parse_signed(parts[last])) {
                (Some(ms), Some(h), Some(m), Some(s)) if 2 <= parts.len() <= 3 => position_us(
                    h,
                    m,
                    s,
                    ms,
                    1000,
                    1000,
                ),
                _ => None,
            }
        },
    }
}

/// The microseconds of `H:MM:SS.cc`.
pub open spec fn ass_timestamp_us(ts: Seq<char>) -> Option<int> {
    let parts = split(trim(ts), seq![':']);
    if parts.len() != 3 {
        None
    } else {
        match split_once(parts[2], seq!['.']) {
            None => None,
            Some((s, cs)) => match (
                parse_signed(parts[0]),
                parse_signed(parts[1]),
                parse_signed(s),
                parse_signed(cs),
            ) {
                (Some(h), Some(m), Some(s), Some(cs)) => position_us(h, m, s, cs, 100, 10_000),
                _ => None,
            },
        }
    }
}

/// Reads `HH:MM:SS,mmm` (SRT) or `HH:MM:SS.mmm` and `MM:SS.mmm` (WebVTT).
pub fn parse_timestamp(ts: &[char]) -> (r: Option<i64>)
    ensures
        r matches Some(t) ==> timestamp_us(ts@) == Some(t as int),
        r is None ==> timestamp_us(ts@) is None,
{
    let comma: Vec<char> = vec![','];
    let dot: Vec<char> = vec!['.'];
    let colon: Vec<char> = vec![':'];
    assert(comma@ == seq![',']);
    assert(dot@ == seq!['.']);
    assert(colon@ == seq![':']);
    let t = trimmed(ts);
    let halves = match rcut(t, &comma) {
        Some(h) => Some(h),
        None => rcut(t, &dot),
    };
    let (hms, ms) = match halves {
        Some(h) => h,
        None => return None,
    };
    let ms = trimmed(ms);
    let head = if ms.len() > 3 {
        part(ms, 0, 3)
    } else {
        ms
    };
    assert(head@ == first_three(ms@));
    let ms: i64 = match read_i64(head) {
        Some(v) => v,
        None => return None,
    };
    let parts = split_text(hms, &colon);
    let ghost pieces = split(hms@, seq![':']);
    assert(forall|i: int| 0 <= i < parts@.len() ==> parts@[i]@ == texts(parts@)[i]);
    assert(parts@.len() == pieces.len());
    if parts.len() == 3 {
        assert(parts@[0]@ == pieces[0] && parts@[1]@ == pieces[1] && parts@[2]@ == pieces[2]);
        let h: i64 = match read_i64(trimmed(parts[0])) {
            Some(v) => v,
            None => return None,
        };
        let m: i64 = match read_i64(parts[1]) {
            Some(v) => v,
            None => return None,
        };
        let s: i64 = match read_i64(parts[2]) {
            Some(v) => v,
            None => return None,
        };
        position(h, m, s, ms, 1000, 1000)
    } else if parts.len() == 2 {
        assert(parts@[0]@ == pieces[0] && parts@[1]@ == pieces[1]);
        let m: i64 = match read_i64(trimmed(parts[0])) {
            Some(v) => v,
            None => return None,
        };
        let s: i64 = match read_i64(parts[1]) {
            Some(v) => v,
            None => return None,
        };
        position(0, m, s, ms, 1000, 1000)
    } else {
        None
    }
}

/// Reads `H:MM:SS.cc`, the centisecond timestamps of ASS and SSA.
pub fn parse_ass_timestamp(ts: &[char]) -> (r: Option<i64>)
    ensures
        r matches Some(t) ==> ass_timestamp_us(ts@) == Some(t as int),
        r is None ==> ass_timestamp_us(ts@) is None,
{
    let dot: Vec<char> = vec!['.'];
    let colon: Vec<char> = vec![':'];
    assert(dot@ == seq!['.']);
    assert(colon@ == seq![':']);
    let parts = split_text(trimmed(ts), &colon);
    let ghost pieces = split(trim(ts@), seq![':']);
    assert(forall|i: int| 0 <= i < parts@.len() ==> parts@[i]@ == texts(parts@)[i]);
    assert(parts@.len() == pieces.len());
    if parts.len() != 3 {
        return None;
    }
    assert(parts@[0]@ == pieces[0] && parts@[1]@ == pieces[1] && parts@[2]@ == pieces[2]);
    let (s, cs) = match cut(parts[2], &dot) {
        Some(h) => h,
        None => return None,
    };
    let h: i64 = match read_i64(parts[0]) {
        Some(v) => v,
        None => return None,
    };
    let m: i64 = match read_i64(parts[1]) {
        Some(v) => v,
        None => return None,
    };
    let s: i64 = match read_i64(s) {
        Some(v) => v,
        None => return None,
    };
    let cs: i64 = match read_i64(cs) {
        Some(v) => v,
        None => return None,
    };
    position(h, m, s, cs, 100, 10_000)
}

// ---- Laws ------------------------------------------------------------------

/// A number as a part of a timestamp, with zeros before it.
pub open spec fn stamp_part(n: nat, width: nat) -> Seq<char> {
    zero_padded(decimal(n), width)
}

/// `MM:SS`.
pub open spec fn minutes_text(m: nat, s: nat) -> Seq<char> {
    stamp_part(m, 2) + seq![':'] + stamp_part(s, 2)
}

/// `HH:MM:SS`.
pub open spec fn hours_text(h: nat, m: nat, s: nat) -> Seq<char> {
    stamp_part(h, 2) + seq![':'] + minutes_text(m, s)
}

/// The milliseconds of a time of day.
pub open spec fn milliseconds(h: nat, m: nat, s: nat, ms: nat) -> nat {
    ((h * 60 + m) * 60 + s) * 1000 + ms
}

/// A part of a timestamp is its number, made of digits alone.
proof fn lemma_part(n: nat, width: nat)
    ensures
        stamp_part(n, width).len() > 0,
        n <= i64::MAX ==> parse_signed(stamp_part(n, width)) == Some(n as int),
        trim(stamp_part(n, width)) == stamp_part(n, width),
        forall|i: int|
            0 <= i < stamp_part(n, width).len() ==> is_digit(#[trigger] stamp_part(n, width)[i]),
        forall|c: char| !is_digit(c) ==> !(#[trigger] stamp_part(n, width).contains(c)),
{
    law_padding_keeps_the_number(n, width);
    let p = stamp_part(n, width);
    assert(is_digit(p[0]) && is_digit(p[p.len() - 1]));
    lemma_trim_keeps(p);
    assert forall|c: char| !is_digit(c) implies !(#[trigger] p.contains(c)) by {
        if p.contains(c) {
            let k = choose|k: int| 0 <= k < p.len() && p[k] == c;
            assert(is_digit(p[k]));
        }
    }
}

/// Whether a text holds digits and colons only and begins with a digit.
pub open spec fn is_clock(t: Seq<char>) -> bool {
    &&& t.len() > 0 && is_digit(t[0])
    &&& forall|i: int| 0 <= i < t.len() ==> is_digit(#[trigger] t[i]) || t[i] == ':'
}

/// Two such texts with a colon between them.
proof fn lemma_clock_grows(a: Seq<char>, b: Seq<char>)
    requires
        is_clock(a),
        is_clock(b),
    ensures
        is_clock(a + seq![':'] + b),
{
    let t = a + seq![':'] + b;
    let n = a.len() as int;
    assert(t[0] == a[0]);
    assert forall|i: int| 0 <= i < t.len() implies is_digit(#[trigger] t[i]) || t[i] == ':' by {
        if i < n {
            assert(t[i] == a[i]);
        } else if n < i {
            assert(t[i] == b[i - n - 1]);
        }
    }
}

/// What stands before the fraction of a timestamp.
proof fn lemma_clock_parts(h: nat, m: nat, s: nat)
    ensures
        split(minutes_text(m, s), seq![':']) == seq![stamp_part(m, 2), stamp_part(s, 2)],
        split(hours_text(h, m, s), seq![':']) == seq![
            stamp_part(h, 2),
            stamp_part(m, 2),
            stamp_part(s, 2),
        ],
        is_clock(minutes_text(m, s)),
        is_clock(hours_text(h, m, s)),
{
    let (a, b, c) = (stamp_part(h, 2), stamp_part(m, 2), stamp_part(s, 2));
    lemma_part(h, 2);
    lemma_part(m, 2);
    lemma_part(s, 2);
    lemma_join_of_three(a, b, c, seq![':']);
    lemma_join_of_three(b, c, a, seq![':']);
    assert(a + seq![':'] + (b + seq![':'] + c) == a + seq![':'] + b + seq![':'] + c);
    lemma_split_join(seq![a, b, c], ':');
    lemma_split_join(seq![b, c], ':');
    assert(is_digit(a[0]) && is_digit(b[0]) && is_digit(c[0]));
    lemma_clock_grows(b, c);
    lemma_clock_grows(a, minutes_text(m, s));
}

/// A timestamp falls into its two halves at the comma or the point.
proof fn lemma_halves(t: Seq<char>, sep: char, f: Seq<char>)
    requires
        sep == ',' || sep == '.',
        is_clock(t),
        is_clock(f),
        is_digit(f.last()),
        !f.contains(sep),
    ensures
        trim(t + seq![sep] + f) == t + seq![sep] + f,
        rsplit_once(t + seq![sep] + f, seq![sep]) == Some((t, f)),
        sep == '.' ==> rsplit_once(t + seq![sep] + f, seq![',']) is None,
{
    let whole = t + seq![sep] + f;
    assert(whole[0] == t[0] && whole.last() == f.last());
    lemma_trim_keeps(whole);
    lemma_cut_at_last(t, sep, f);
    if sep == '.' {
        assert(!whole.contains(',')) by {
            if whole.contains(',') {
                let k = choose|k: int| 0 <= k < whole.len() && whole[k] == ',';
                let n = t.len() as int;
                if k < n {
                    assert(whole[k] == t[k]);
                } else if k > n {
                    assert(whole[k] == f[k - n - 1]);
                }
            }
        }
        lemma_char_is_absent(whole, ',');
    }
}

/// A timestamp of hours, minutes, seconds and milliseconds, with a comma or a
/// point before the last, is the time that it names, and so is one without hours.
pub proof fn law_timestamp_is_read(h: nat, m: nat, s: nat, ms: nat, sep: char)
    requires
        sep == ',' || sep == '.',
        ms < 1000,
        milliseconds(h, m, s, ms) * 1000 <= i64::MAX,
    ensures
        timestamp_us(hours_text(h, m, s) + seq![sep] + stamp_part(ms, 3)) == Some(
            milliseconds(h, m, s, ms) * 1000int,
        ),
        timestamp_us(minutes_text(m, s) + seq![sep] + stamp_part(ms, 3)) == Some(
            milliseconds(0, m, s, ms) * 1000int,
        ),
{
    lemma_part(h, 2);
    lemma_part(m, 2);
    lemma_part(s, 2);
    lemma_part(ms, 3);
    law_small_numbers_are_short(ms);
    law_padding_keeps_the_number(ms, 3);
    lemma_clock_parts(h, m, s);
    let f = stamp_part(ms, 3);
    assert(is_digit(f[0]) && is_digit(f[f.len() - 1]));
    lemma_halves(hours_text(h, m, s), sep, f);
    lemma_halves(minutes_text(m, s), sep, f);
}

/// A timestamp of an ASS dialogue, whose fraction counts hundredths, is the time
/// that it names.
pub proof fn law_ass_timestamp_is_read(h: nat, m: nat, s: nat, cs: nat)
    requires
        cs < 100,
        milliseconds(h, m, s, 10 * cs) * 1000 <= i64::MAX,
    ensures
        ass_timestamp_us(
            decimal(h) + seq![':'] + stamp_part(m, 2) + seq![':'] + (stamp_part(s, 2) + seq!['.']
                + stamp_part(cs, 2)),
        ) == Some(milliseconds(h, m, s, 10 * cs) * 1000int),
{
    let (a, b) = (stamp_part(h, 0), stamp_part(m, 2));
    let (c, d) = (stamp_part(s, 2), stamp_part(cs, 2));
    let e = c + seq!['.'] + d;
    lemma_part(h, 0);
    lemma_part(m, 2);
    lemma_part(s, 2);
    lemma_part(cs, 2);
    assert(a == decimal(h));
    let whole = a + seq![':'] + b + seq![':'] + e;
    assert(!e.contains(':')) by {
        if e.contains(':') {
            let k = choose|k: int| 0 <= k < e.len() && e[k] == ':';
            if k < c.len() {
                assert(c.contains(c[k]));
            } else if k > c.len() {
                assert(d.contains(d[k - c.len() - 1]));
            }
        }
    }
    lemma_join_of_three(a, b, e, seq![':']);
    lemma_split_join(seq![a, b, e], ':');
    assert(whole[0] == a[0] && whole.last() == d[d.len() - 1]);
    assert(is_digit(a[0]) && is_digit(d[d.len() - 1]));
    lemma_trim_keeps(whole);
    lemma_cut_at_first(c, '.', d);
}

/// Of the fraction of a timestamp the first three digits count, as milliseconds,
/// however many there are.
pub proof fn law_fraction_counts_milliseconds(
    h: nat,
    m: nat,
    s: nat,
    ms: nat,
    width: nat,
    more: Seq<char>,
    sep: char,
)
    requires
        sep == ',' || sep == '.',
        ms < 1000,
        width <= 3,
        forall|i: int| 0 <= i < more.len() ==> is_digit(#[trigger] more[i]),
        milliseconds(h, m, s, ms) * 1000 <= i64::MAX,
    ensures
        timestamp_us(hours_text(h, m, s) + seq![sep] + stamp_part(ms, width)) == Some(
            milliseconds(h, m, s, ms) * 1000int,
        ),
        timestamp_us(hours_text(h, m, s) + seq![sep] + (stamp_part(ms, 3) + more)) == Some(
            milliseconds(h, m, s, ms) * 1000int,
        ),
{
    lemma_part(h, 2);
    lemma_part(m, 2);
    lemma_part(s, 2);
    lemma_part(ms, width);
    lemma_part(ms, 3);
    law_small_numbers_are_short(ms);
    law_padding_keeps_the_number(ms, width);
    law_padding_keeps_the_number(ms, 3);
    lemma_clock_parts(h, m, s);
    let t = hours_text(h, m, s);
    let f = stamp_part(ms, width);
    assert(is_digit(f[0]) && is_digit(f[f.len() - 1]));
    lemma_halves(t, sep, f);
    let p = stamp_part(ms, 3);
    let g = p + more;
    assert forall|i: int| 0 <= i < g.len() implies is_digit(#[trigger] g[i]) by {
        if i < 3 {
            assert(g[i] == p[i]);
        } else {
            assert(g[i] == more[i - 3]);
        }
    }
    assert(is_digit(g[0]) && is_digit(g[g.len() - 1]));
    assert(!g.contains(sep)) by {
        if g.contains(sep) {
            let k = choose|k: int| 0 <= k < g.len() && g[k] == sep;
            assert(is_digit(g[k]));
        }
    }
    lemma_halves(t, sep, g);
    lemma_trim_keeps(g);
    assert(first_three(g) == p);
}

/// A text without a comma or a point is no timestamp, nor is one with words in place of
/// its numbers.
pub proof fn law_other_texts_are_no_timestamps(t: Seq<char>, word: Seq<char>, s: nat, ms: nat)
    requires
        !t.contains(',') && !t.contains('.'),
        word.len() > 0 && !is_space(word[0]) && !is_space(word.last()),
        !word.contains(':') && !word.contains(',') && !word.contains('.'),
        !is_number(word, 10) && word[0] != '-' && word[0] != '+',
    ensures
        timestamp_us(t) is None,
        timestamp_us(word + seq![':'] + stamp_part(s, 2) + seq!['.'] + stamp_part(ms, 3)) is None,
{
    let u = trim(t);
    lemma_trim_holds_no_more(t, ',');
    lemma_trim_holds_no_more(t, '.');
    lemma_char_is_absent(u, ',');
    lemma_char_is_absent(u, '.');
    let (b, f) = (stamp_part(s, 2), stamp_part(ms, 3));
    lemma_part(s, 2);
    lemma_part(ms, 3);
    let head = word + seq![':'] + b;
    let whole = head + seq!['.'] + f;
    assert(whole[0] == word[0]);
    assert(is_digit(f[f.len() - 1]));
    assert(whole.last() == f[f.len() - 1]);
    lemma_trim_keeps(whole);
    assert(!whole.contains(',')) by {
        if whole.contains(',') {
            let k = choose|k: int| 0 <= k < whole.len() && whole[k] == ',';
            let n = word.len() as int;
            let j = n + 1 + b.len();
            if k < n {
                assert(word.contains(word[k]));
            } else if n < k < j {
                assert(b.contains(b[k - n - 1]));
            } else if k > j {
                assert(f.contains(f[k - j - 1]));
            }
        }
    }
    lemma_char_is_absent(whole, ',');
    lemma_cut_at_last(head, '.', f);
    lemma_join_of_three(word, b, b, seq![':']);
    lemma_split_join(seq![word, b], ':');
    lemma_trim_keeps(word);
}

/// What is trimmed holds nothing that the text did not.
proof fn lemma_trim_holds_no_more(s: Seq<char>, c: char)
    requires
        !s.contains(c),
    ensures
        !trim(s).contains(c),
{
    lemma_start_holds_no_more(s, c);
    lemma_end_holds_no_more(trim_start(s), c);
}

proof fn lemma_start_holds_no_more(s: Seq<char>, c: char)
    requires
        !s.contains(c),
    ensures
        !trim_start(s).contains(c),
    decreases s.len(),
{
    if s.len() > 0 && is_space(s[0]) {
        let rest = s.drop_first();
        if rest.contains(c) {
            let k = choose|k: int| 0 <= k < rest.len() && rest[k] == c;
            assert(s.contains(s[k + 1]));
        }
        lemma_start_holds_no_more(rest, c);
    }
}

proof fn lemma_end_holds_no_more(s: Seq<char>, c: char)
    requires
        !s.contains(c),
    ensures
        !trim_end(s).contains(c),
    decreases s.len(),
{
    if s.len() > 0 && is_space(s.last()) {
        let less = s.drop_last();
        if less.contains(c) {
            let k = choose|k: int| 0 <= k < less.len() && less[k] == c;
            assert(s.contains(s[k]));
        }
        lemma_end_holds_no_more(less, c);
    }
}

} // verus!
