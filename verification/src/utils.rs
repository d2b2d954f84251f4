//! Small functions that all modules share.

use crate::number::{decimal, digit_char, write_decimal, write_padded, zero_padded};
use crate::paths::{
    after_slash, file_name, file_name_of, is_name, law_file_name_is_the_last_part,
    law_tails_do_not_count,
};
use crate::streaming::{is_url_chars, is_url_text};
use crate::text::{
    ascii_lower, contains, from_chars, has_text, lowered, matches_at, push_all, rcut, starts_with,
    to_chars, trim_end_char, trimmed_end_char,
};
use crate::text_facts::lemma_cut_at_last;
use vstd::prelude::*;

verus! {

// ---- Durations -------------------------------------------------------------

/// `H:MM:SS` for a number of seconds, or `M:SS` below an hour.
pub open spec fn clock_text(secs: nat) -> Seq<char> {
    let h = secs / 3600;
    let m = secs % 3600 / 60;
    let s = zero_padded(decimal(secs % 60), 2);
    if h > 0 {
        decimal(h) + seq![':'] + zero_padded(decimal(m), 2) + seq![':'] + s
    } else {
        decimal(m) + seq![':'] + s
    }
}

/// The text of a duration: negative ones count as none, and fractions of a
/// second are dropped.
pub open spec fn time_text(us: int) -> Seq<char> {
    clock_text(
        if us > 0 {
            (us / 1_000_000) as nat
        } else {
            0
        },
    )
}

/// A duration in microseconds as `H:MM:SS`, or `M:SS` below an hour.
pub fn format_time(us: i64) -> (r: String)
    ensures
        r@ == time_text(us as int),
{
    let secs: u64 = if us > 0 {
        us as u64 / 1_000_000
    } else {
        0
    };
    let h: u64 = secs / 3600;
    let m: u64 = secs % 3600 / 60;
    let s: u64 = secs % 60;
    let mut out: Vec<char>;
    if h > 0 {
        out = write_decimal(h);
        out.push(':');
        let minutes = write_padded(m, 2);
        push_all(&mut out, &minutes);
    } else {
        out = write_decimal(m);
    }
    let ghost head = out@;
    out.push(':');
    let seconds = write_padded(s, 2);
    push_all(&mut out, &seconds);
    assert(out@ == head + seq![':'] + seconds@);
    from_chars(&out)
}

// ---- Names -----------------------------------------------------------------

/// A readable name for a path or a URL: its last part.
pub open spec fn name_of(path: Seq<char>) -> Seq<char> {
    if is_url_text(path) {
        let whole = trim_end_char(path, '/');
        let last = after_slash(whole);
        if last.len() > 0 && !contains(last, "://"@) {
            last
        } else {
            whole
        }
    } else {
        match file_name(path) {
            Some(name) => name,
            None => path,
        }
    }
}

/// A readable name for a path or a URL.
pub fn display_name(path: &str) -> (r: String)
    ensures
        r@ == name_of(path@),
{
    let s = to_chars(path);
    if is_url_chars(&s) {
        let whole = trimmed_end_char(&s, '/');
        let slash: Vec<char> = vec!['/'];
        assert(slash@ == seq!['/']);
        let last = match rcut(whole, &slash) {
            Some((_, name)) => name,
            None => whole,
        };
        if last.len() > 0 && !has_text(last, "://") {
            from_chars(last)
        } else {
            from_chars(whole)
        }
    } else {
        match file_name_of(&s) {
            Some(name) => from_chars(name),
            None => path.to_owned(),
        }
    }
}

// ---- Time ------------------------------------------------------------------

/// `std::time::SystemTime::duration_since` from the Unix epoch to now: whole
/// seconds and the nanoseconds after them, which are less than a second.
/// Nothing where the clock stands before the epoch. What the time is depends
/// on the machine's clock.
#[verifier::external_body]
pub(crate) fn unix_time() -> (r: Option<(u64, u32)>)
    ensures
        r matches Some(t) ==> t.1 < 1_000_000_000,
{
    match std::time::SystemTime::now().duration_since(std::time::UNIX_EPOCH) {
        Ok(d) => Some((d.as_secs(), d.subsec_nanos())),
        Err(_) => None,
    }
}

/// The name for a file made at the given time: its seconds, zero without one.
pub open spec fn slug_at(time: Option<(u64, u32)>) -> Seq<char> {
    match time {
        Some(t) => decimal(t.0 as nat),
        None => decimal(0),
    }
}

/// The name for a file made at the given time.
pub fn slug_for(time: Option<(u64, u32)>) -> (r: String)
    ensures
        r@ == slug_at(time),
{
    match time {
        Some(t) => from_chars(&write_decimal(t.0)),
        None => from_chars(&write_decimal(0)),
    }
}

/// A name for a screenshot or a recording that is made now.
pub fn timestamp_slug() -> (r: String)
    ensures
        exists|time: Option<(u64, u32)>| #[trigger] slug_at(time) == r@,
{
    slug_for(unix_time())
}

// ---- Laws ------------------------------------------------------------------

/// A duration of hours, minutes and seconds reads as them, the lower ones with two
/// digits; the hours are left out where there are none, and what is less than a
/// second does not show.
pub proof fn law_time_text_names_the_parts(h: nat, m: nat, s: nat, rest: nat)
    requires
        m < 60,
        s < 60,
        rest < 1_000_000,
    ensures
        ({
            let us = ((h * 60 + m) * 60 + s) * 1_000_000 + rest;
            time_text(us as int) == (if h > 0 {
                decimal(h) + seq![':'] + zero_padded(decimal(m), 2) + seq![':'] + zero_padded(
                    decimal(s),
                    2,
                )
            } else {
                decimal(m) + seq![':'] + zero_padded(decimal(s), 2)
            })
        }),
{
    let secs = (h * 60 + m) * 60 + s;
    assert((secs * 1_000_000 + rest) / 1_000_000 == secs);
    assert(secs / 3600 == h);
    assert(secs % 3600 / 60 == m);
    assert(secs % 60 == s);
}

/// A duration that is not positive reads as none.
pub proof fn law_time_text_of_nothing(us: int)
    requires
        us <= 0,
    ensures
        time_text(us) == seq!['0', ':', '0', '0'],
{
    reveal_with_fuel(decimal, 2);
    assert(digit_char(0) == '0');
    assert(decimal(0) == seq!['0']);
    assert(zero_padded(decimal(0), 2) == seq!['0', '0']);
}

/// The name of a source is what stands behind its last slash.
pub proof fn law_name_is_the_last_part(before: Seq<char>, name: Seq<char>)
    requires
        is_name(name),
    ensures
        name_of(before + seq!['/'] + name) == name,
{
    let path = before + seq!['/'] + name;
    assert(name.contains(name.last()));
    if is_url_text(path) {
        assert(path.last() != '/');
        assert(trim_end_char(path, '/') == path);
        lemma_cut_at_last(before, '/', name);
        reveal_strlit("://");
        if contains(name, "://"@) {
            let i = choose|i: int| #[trigger] matches_at(name, "://"@, i);
            assert(name.subrange(i, i + 3)[1] == '/');
            assert(name.contains(name[i + 1]));
        }
    } else {
        law_file_name_is_the_last_part(before, name);
    }
}

/// Slashes at the end of a source are no part of its name.
pub proof fn law_trailing_slashes_are_no_name(before: Seq<char>, name: Seq<char>)
    requires
        is_name(name),
    ensures
        name_of(before + seq!['/'] + name + seq!['/']) == name,
{
    let path = before + seq!['/'] + name;
    let with = path + seq!['/'];
    law_name_is_the_last_part(before, name);
    assert(with.drop_last() == path);
    assert(name.contains(name.last()));
    assert(path.last() == name.last());
    lemma_slash_is_no_scheme(path);
    if is_url_text(with) {
        assert(trim_end_char(with, '/') == trim_end_char(path, '/'));
    } else {
        law_tails_do_not_count(path);
    }
}

/// A slash at the end makes no address of what was none.
proof fn lemma_slash_is_no_scheme(path: Seq<char>)
    requires
        path.len() > 0,
        path.last() != '/',
    ensures
        is_url_text(path + seq!['/']) == is_url_text(path),
{
    reveal_strlit("http://");
    reveal_strlit("https://");
    reveal_strlit("rtsp://");
    reveal_strlit("rtmp://");
    reveal_strlit("udp://");
    reveal_strlit("rtp://");
    reveal_strlit("mms://");
    lemma_same_beginning(path, "http://"@);
    lemma_same_beginning(path, "https://"@);
    lemma_same_beginning(path, "rtsp://"@);
    lemma_same_beginning(path, "rtmp://"@);
    lemma_same_beginning(path, "udp://"@);
    lemma_same_beginning(path, "rtp://"@);
    lemma_same_beginning(path, "mms://"@);
}

proof fn lemma_same_beginning(path: Seq<char>, p: Seq<char>)
    requires
        path.len() > 0,
        path.last() != '/',
        p.len() > 1,
        p[p.len() - 2] == '/',
    ensures
        starts_with(lowered(path + seq!['/']), p) == starts_with(lowered(path), p),
{
    let (a, b) = (lowered(path + seq!['/']), lowered(path));
    let n = p.len() as int;
    assert(a.drop_last() == b);
    if n <= b.len() {
        assert(a.subrange(0, n) == b.subrange(0, n));
    } else if n == a.len() && starts_with(a, p) {
        assert(a.subrange(0, n)[n - 2] == a[n - 2]);
        assert(a[n - 2] == ascii_lower(path.last()));
    }
}

} // verus!
