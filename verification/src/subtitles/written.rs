//! Subtitle documents that are written from cues, and that they are read back.

use super::markup::{CueStyle, law_text_without_tags_stays};
use super::parse::{
    all_digits, blocks, filled, first_word, gathered, is_vtt_meta, srt_cue, srt_cues, text_cue,
    vtt_cue, vtt_cues,
};
use super::timestamp::timestamp_us;
use super::track::Cue;
use crate::number::is_digit;
use crate::streaming::lemma_join_first;
use crate::text::{
    contains, find, is_space, join, lemma_find, lemma_find_is, lemma_first_line, lemma_run_is,
    lemma_trim_keeps, lines, matches_at, replace, split, split_once, starts_with, strip_cr, trim,
    trim_end, trim_start,
};
use vstd::prelude::*;

verus! {

// ---- Lines -----------------------------------------------------------------

/// Whether a line can stand in a document: it is not blank and holds no line
/// ending.
pub open spec fn is_line(l: Seq<char>) -> bool {
    &&& !l.contains('\n') && !l.contains('\r')
    &&& exists|i: int| 0 <= i < l.len() && !is_space(#[trigger] l[i])
}

/// Whether all lines can stand in a document.
pub open spec fn are_lines(ls: Seq<Seq<char>>) -> bool {
    forall|i: int| 0 <= i < ls.len() ==> is_line(#[trigger] ls[i])
}

/// A text with something else than white space in it is not trimmed away.
proof fn lemma_trim_start_leaves(s: Seq<char>, i: int)
    requires
        0 <= i < s.len(),
        !is_space(s[i]),
    ensures
        trim_start(s).len() > 0,
        !is_space(trim_start(s)[0]),
    decreases s.len(),
{
    if is_space(s[0]) {
        assert(s.drop_first()[i - 1] == s[i]);
        lemma_trim_start_leaves(s.drop_first(), i - 1);
    }
}

proof fn lemma_trim_end_leaves(s: Seq<char>, i: int)
    requires
        0 <= i < s.len(),
        !is_space(s[i]),
    ensures
        i < trim_end(s).len() <= s.len(),
        trim_end(s) == s.take(trim_end(s).len() as int),
    decreases s.len(),
{
    if is_space(s.last()) {
        assert(s.drop_last()[i] == s[i]);
        lemma_trim_end_leaves(s.drop_last(), i);
        assert(trim_end(s) == s.take(trim_end(s).len() as int));
    } else {
        assert(s.take(s.len() as int) == s);
    }
}

proof fn lemma_not_blank(l: Seq<char>)
    requires
        is_line(l),
    ensures
        l.len() > 0,
        trim(l).len() > 0,
{
    let i = choose|i: int| 0 <= i < l.len() && !is_space(#[trigger] l[i]);
    lemma_trim_start_leaves(l, i);
    lemma_trim_end_leaves(trim_start(l), 0);
}

proof fn lemma_filled_keeps(ls: Seq<Seq<char>>)
    requires
        are_lines(ls),
    ensures
        filled(ls) == ls,
    decreases ls.len(),
{
    if ls.len() > 0 {
        let less = ls.drop_last();
        assert forall|i: int| 0 <= i < less.len() implies is_line(#[trigger] less[i]) by {
            assert(less[i] == ls[i]);
        }
        lemma_filled_keeps(less);
        assert(is_line(ls[ls.len() - 1]));
        lemma_not_blank(ls.last());
        assert(less.push(ls.last()) == ls);
    }
}

/// Lines that are joined are found again.
proof fn lemma_lines_of_join(ls: Seq<Seq<char>>)
    requires
        are_lines(ls),
        ls.len() > 0,
    ensures
        lines(join(ls, seq!['\n'])) == ls,
    decreases ls.len(),
{
    let newline = seq!['\n'];
    let whole = join(ls, newline);
    let first = ls[0];
    assert(is_line(first));
    lemma_not_blank(first);
    assert(strip_cr(first) == first) by {
        assert(first.contains(first.last()));
    }
    if ls.len() == 1 {
        assert(whole == first);
        lemma_find(whole, newline);
        if contains(whole, newline) {
            let i = choose|i: int| #[trigger] matches_at(whole, newline, i);
            assert(whole.subrange(i, i + 1)[0] == '\n');
            assert(first.contains(whole[i]));
        }
        assert(ls == seq![first]);
    } else {
        let rest = ls.skip(1);
        lemma_join_first(ls, newline);
        assert forall|i: int| 0 <= i < rest.len() implies is_line(#[trigger] rest[i]) by {
            assert(rest[i] == ls[i + 1]);
        }
        lemma_lines_of_join(rest);
        lemma_first_line(first, join(rest, newline));
        assert(seq![first] + rest == ls);
    }
}

/// What none of the texts holds, nor what stands between them, the join does not
/// hold.
proof fn lemma_join_without(ls: Seq<Seq<char>>, sep: Seq<char>, c: char)
    requires
        forall|i: int| 0 <= i < ls.len() ==> !(#[trigger] ls[i]).contains(c),
        !sep.contains(c),
    ensures
        !join(ls, sep).contains(c),
    decreases ls.len(),
{
    let whole = join(ls, sep);
    if ls.len() == 1 {
        assert(!ls[0].contains(c));
    } else if ls.len() > 1 {
        let less = ls.drop_last();
        assert forall|i: int| 0 <= i < less.len() implies !(#[trigger] less[i]).contains(c) by {
            assert(less[i] == ls[i]);
        }
        lemma_join_without(less, sep, c);
        let head = join(less, sep);
        assert(!ls[ls.len() - 1].contains(c));
        if whole.contains(c) {
            let k = choose|k: int| 0 <= k < whole.len() && whole[k] == c;
            if k < head.len() {
                assert(head.contains(head[k]));
            } else if k < head.len() + sep.len() {
                assert(sep.contains(sep[k - head.len()]));
            } else {
                assert(ls.last().contains(ls.last()[k - head.len() - sep.len()]));
            }
        }
    }
}

// ---- Blocks ----------------------------------------------------------------

/// Whether a text can stand as a block between empty lines: it begins and ends
/// with something else than a line break and holds no empty line.
pub open spec fn is_block(s: Seq<char>) -> bool {
    &&& s.len() > 0 && s[0] != '\n' && s.last() != '\n'
    &&& !s.contains('\r')
    &&& forall|k: int| 0 < k < s.len() && s[k - 1] == '\n' ==> #[trigger] s[k] != '\n'
}

/// Lines that are joined form a block.
proof fn lemma_lines_form_block(ls: Seq<Seq<char>>)
    requires
        are_lines(ls),
        ls.len() > 0,
    ensures
        is_block(join(ls, seq!['\n'])),
        join(ls, seq!['\n'])[0] == ls[0][0],
        join(ls, seq!['\n']).last() == ls.last().last(),
    decreases ls.len(),
{
    let newline = seq!['\n'];
    let whole = join(ls, newline);
    let last = ls.last();
    assert(is_line(ls[ls.len() - 1]));
    lemma_not_blank(last);
    assert forall|i: int| 0 <= i < ls.len() implies !(#[trigger] ls[i]).contains('\r') by {
        assert(is_line(ls[i]));
    }
    lemma_join_without(ls, newline, '\r');
    assert forall|k: int| 0 <= k < last.len() implies #[trigger] last[k] != '\n' by {
        assert(last.contains(last[k]));
    }
    if ls.len() == 1 {
        assert(whole == last);
    } else {
        let less = ls.drop_last();
        assert forall|i: int| 0 <= i < less.len() implies is_line(#[trigger] less[i]) by {
            assert(less[i] == ls[i]);
        }
        lemma_lines_form_block(less);
        let head = join(less, newline);
        let n = head.len() as int;
        assert(whole == head + newline + last);
        assert forall|k: int| 0 < k < whole.len() && whole[k - 1] == '\n' implies #[trigger] whole[k]
            != '\n' by {
            if k < n {
                assert(whole[k] == head[k] && whole[k - 1] == head[k - 1]);
            } else if k == n {
                assert(whole[k - 1] == head.last());
            } else {
                assert(whole[k] == last[k - n - 1]);
            }
        }
    }
}

/// The blocks of a document are those that it was joined of.
proof fn lemma_split_blocks(bs: Seq<Seq<char>>)
    requires
        bs.len() > 0,
        forall|i: int| 0 <= i < bs.len() ==> is_block(#[trigger] bs[i]),
    ensures
        split(join(bs, seq!['\n', '\n']), seq!['\n', '\n']) == bs,
    decreases bs.len(),
{
    let sep = seq!['\n', '\n'];
    let whole = join(bs, sep);
    let first = bs[0];
    assert(is_block(first));
    if bs.len() == 1 {
        assert(whole == first);
        lemma_find(whole, sep);
        if contains(whole, sep) {
            let i = choose|i: int| #[trigger] matches_at(whole, sep, i);
            assert(whole.subrange(i, i + 2)[0] == whole[i]);
            assert(whole.subrange(i, i + 2)[1] == whole[i + 1]);
        }
        assert(bs == seq![first]);
    } else {
        let rest = bs.skip(1);
        let tail = join(rest, sep);
        lemma_join_first(bs, sep);
        assert forall|i: int| 0 <= i < rest.len() implies is_block(#[trigger] rest[i]) by {
            assert(rest[i] == bs[i + 1]);
        }
        lemma_split_blocks(rest);
        let at = first.len() as int;
        assert(whole.subrange(at, at + 2) == sep);
        assert forall|k: int| 0 <= k < at implies !#[trigger] matches_at(whole, sep, k) by {
            if matches_at(whole, sep, k) {
                assert(whole.subrange(k, k + 2)[0] == whole[k]);
                assert(whole.subrange(k, k + 2)[1] == whole[k + 1]);
                assert(whole[k] == first[k]);
                if k + 1 < at {
                    assert(whole[k + 1] == first[k + 1]);
                }
            }
        }
        lemma_find_is(whole, sep, at);
        assert(whole.take(at) == first);
        assert(whole.skip(at + 2) == tail);
        assert(split(whole, sep) == seq![first] + split(tail, sep));
        assert(seq![first] + rest == bs);
    }
}

/// Nothing is replaced where there is no carriage return.
proof fn lemma_nothing_to_replace(doc: Seq<char>)
    requires
        !doc.contains('\r'),
    ensures
        replace(doc, "\r\n"@, "\n"@) == doc,
{
    reveal_strlit("\r\n");
    lemma_find(doc, "\r\n"@);
    if contains(doc, "\r\n"@) {
        let i = choose|i: int| #[trigger] matches_at(doc, "\r\n"@, i);
        assert(doc.subrange(i, i + 2)[0] == '\r');
        assert(doc.contains(doc[i]));
    }
}

/// A document of blocks with an empty line between them.
pub open spec fn document(bs: Seq<Seq<char>>) -> Seq<char> {
    join(bs, seq!['\n', '\n'])
}

proof fn lemma_blocks(bs: Seq<Seq<char>>)
    requires
        bs.len() > 0,
        forall|i: int| 0 <= i < bs.len() ==> is_block(#[trigger] bs[i]),
    ensures
        blocks(document(bs)) == bs,
        !document(bs).contains('\r'),
{
    reveal_strlit("\n\n");
    assert("\n\n"@ == seq!['\n', '\n']);
    assert forall|i: int| 0 <= i < bs.len() implies !(#[trigger] bs[i]).contains('\r') by {
        assert(is_block(bs[i]));
    }
    lemma_join_without(bs, seq!['\n', '\n'], '\r');
    lemma_nothing_to_replace(document(bs));
    lemma_split_blocks(bs);
}

// ---- Cues ------------------------------------------------------------------

/// A cue as it is written: a line of its own before the timing, which may be
/// missing, the two timestamps, what stands behind them, and the lines of text.
pub struct WrittenCue {
    pub before: Option<Seq<char>>,
    pub start: Seq<char>,
    pub end: Seq<char>,
    pub settings: Seq<char>,
    pub text: Seq<Seq<char>>,
}

/// The line with the two timestamps.
pub open spec fn timing_line(w: WrittenCue) -> Seq<char> {
    w.start + seq![' ', '-', '-', '>', ' '] + w.end + w.settings
}

/// The lines of a written cue.
pub open spec fn written_lines(w: WrittenCue) -> Seq<Seq<char>> {
    match w.before {
        Some(line) => seq![line, timing_line(w)] + w.text,
        None => seq![timing_line(w)] + w.text,
    }
}

/// The block of a written cue: its lines, one below the other.
pub open spec fn written_block(w: WrittenCue) -> Seq<char> {
    join(written_lines(w), seq!['\n'])
}

/// Whether a text is a timestamp that stands as one word.
pub open spec fn is_stamp(s: Seq<char>) -> bool {
    &&& timestamp_us(s) is Some
    &&& s.len() > 0 && is_digit(s[0]) && !s.contains('>')
    &&& forall|i: int| 0 <= i < s.len() ==> !is_space(#[trigger] s[i])
}

/// Whether a cue can be written: its timing is well formed, and it has one or more
/// lines of plain text, of which the first does not begin and the last does not
/// end with white space.
pub open spec fn is_writable(w: WrittenCue) -> bool {
    &&& is_stamp(w.start) && is_stamp(w.end)
    &&& !w.settings.contains('\n') && !w.settings.contains('\r')
    &&& w.settings.len() > 0 ==> is_space(w.settings[0])
    &&& w.text.len() > 0 && are_lines(w.text)
    &&& forall|i: int| 0 <= i < w.text.len() ==> !(#[trigger] w.text[i]).contains('<')
    &&& !is_space(w.text[0][0]) && !is_space(w.text.last().last())
}

/// The cue that a written one stands for: it is shown from the first timestamp to
/// the second, with all its lines, in the default style.
pub open spec fn read_cue(w: WrittenCue) -> Cue {
    Cue {
        start: timestamp_us(w.start)->0,
        end: timestamp_us(w.end)->0,
        text: join(w.text, seq!['\n']),
        style: CueStyle { align: 2, bold: false, italic: false, color: None },
    }
}

/// The text of a writable cue is read as it stands.
proof fn lemma_plain_text(w: WrittenCue, start: Seq<char>, end: Seq<char>)
    requires
        is_writable(w),
        timestamp_us(start) == timestamp_us(w.start),
        timestamp_us(end) == timestamp_us(w.end),
    ensures
        text_cue(start, end, w.text) == Some(read_cue(w)),
{
    reveal_strlit("\n");
    let newline = seq!['\n'];
    assert("\n"@ == newline);
    let whole = join(w.text, newline);
    lemma_lines_form_block(w.text);
    lemma_join_without(w.text, newline, '<');
    law_text_without_tags_stays(whole);
    lemma_trim_keeps(whole);
}

/// A timestamp with a space at either side is that timestamp.
proof fn lemma_stamp_stands_alone(s: Seq<char>)
    requires
        is_stamp(s),
    ensures
        timestamp_us(s + seq![' ']) == timestamp_us(s),
        timestamp_us(seq![' '] + s) == timestamp_us(s),
{
    assert(is_space(' '));
    let a = s + seq![' '];
    assert(a.drop_last() == s);
    assert(!is_space(s[0]) && !is_space(s[s.len() - 1]));
    assert(trim_start(a) == a);
    assert(trim_end(a) == trim_end(s));
    let b = seq![' '] + s;
    assert(b.drop_first() == s);
    assert(trim_start(b) == trim_start(s));
    lemma_trim_keeps(s);
    assert(trim(a) == trim(s));
    assert(trim(b) == trim(s));
}

/// The timing line falls into its two halves at the arrow.
proof fn lemma_timing_line(w: WrittenCue)
    requires
        is_writable(w),
    ensures
        is_line(timing_line(w)),
        contains(timing_line(w), "-->"@),
        split_once(timing_line(w), "-->"@) == Some(
            (w.start + seq![' '], seq![' '] + w.end + w.settings),
        ),
{
    reveal_strlit("-->");
    let arrow = "-->"@;
    let line = timing_line(w);
    let n = w.start.len() as int;
    let m = n + 5 + w.end.len();
    assert forall|c: char| c == '\n' || c == '\r' implies !#[trigger] line.contains(c) by {
        assert(is_space(c));
        if line.contains(c) {
            let k = choose|k: int| 0 <= k < line.len() && line[k] == c;
            if k < n {
                assert(line[k] == w.start[k]);
            } else if k < n + 5 {
                assert(line[k] == seq![' ', '-', '-', '>', ' '][k - n]);
            } else if k < m {
                assert(line[k] == w.end[k - n - 5]);
            } else {
                assert(line[k] == w.settings[k - m]);
                assert(w.settings.contains(w.settings[k - m]));
            }
        }
    }
    assert(line[0] == w.start[0]);
    assert(!is_space(line[0]));
    assert(line.subrange(n + 1, n + 4) == arrow);
    assert(matches_at(line, arrow, n + 1));
    assert forall|k: int| 0 <= k < n + 1 implies !#[trigger] matches_at(line, arrow, k) by {
        if matches_at(line, arrow, k) {
            assert(line.subrange(k, k + 3)[2] == line[k + 2]);
            if k + 2 < n {
                assert(line[k + 2] == w.start[k + 2]);
                assert(w.start.contains(w.start[k + 2]));
            } else {
                assert(line[k + 2] == seq![' ', '-', '-', '>', ' '][k + 2 - n]);
            }
        }
    }
    lemma_find_is(line, arrow, n + 1);
    assert(line.take(n + 1) == w.start + seq![' ']);
    assert(line.skip(n + 4) == seq![' '] + w.end + w.settings);
}

/// The cues of elements that each give one.
proof fn lemma_all_gathered(
    s: Seq<Seq<char>>,
    f: spec_fn(Seq<char>) -> Option<Cue>,
    found: Seq<Cue>,
)
    requires
        s.len() == found.len(),
        forall|i: int| 0 <= i < s.len() ==> f(#[trigger] s[i]) == Some(found[i]),
    ensures
        gathered(s, f) == found,
    decreases s.len(),
{
    if s.len() > 0 {
        let n = s.len() - 1;
        assert(f(s[n]) == Some(found[n]));
        assert forall|i: int| 0 <= i < n implies f(#[trigger] s.drop_last()[i]) == Some(
            found.drop_last()[i],
        ) by {
            assert(s.drop_last()[i] == s[i]);
        }
        lemma_all_gathered(s.drop_last(), f, found.drop_last());
        assert(found.drop_last().push(found[n]) == found);
    } else {
        assert(found == Seq::<Cue>::empty());
    }
}

/// An element that gives no cue might as well not be there.
proof fn lemma_gathered_without(
    a: Seq<Seq<char>>,
    c: Seq<char>,
    b: Seq<Seq<char>>,
    f: spec_fn(Seq<char>) -> Option<Cue>,
)
    requires
        f(c) is None,
    ensures
        gathered(a + seq![c] + b, f) == gathered(a + b, f),
    decreases b.len(),
{
    let with = a + seq![c] + b;
    if b.len() == 0 {
        assert(with.drop_last() == a);
        assert(with.last() == c);
        assert(a + b == a);
    } else {
        lemma_gathered_without(a, c, b.drop_last(), f);
        assert(with.drop_last() == a + seq![c] + b.drop_last());
        assert((a + b).drop_last() == a + b.drop_last());
        assert(with.last() == b.last() && (a + b).last() == b.last());
    }
}

// ---- SRT -------------------------------------------------------------------

/// Whether a cue can be written in an SRT document: what stands before the timing
/// is a number, and nothing stands behind it.
pub open spec fn is_srt(w: WrittenCue) -> bool {
    &&& is_writable(w)
    &&& w.settings.len() == 0
    &&& w.before matches Some(n) ==> n.len() > 0 && all_digits(n)
}

/// The blocks of the written cues.
pub open spec fn written_blocks(ws: Seq<WrittenCue>) -> Seq<Seq<char>> {
    Seq::new(ws.len(), |i: int| written_block(ws[i]))
}

/// The cues that the written ones stand for.
pub open spec fn read_cues(ws: Seq<WrittenCue>) -> Seq<Cue> {
    Seq::new(ws.len(), |i: int| read_cue(ws[i]))
}

/// A number can stand in a line of its own.
proof fn lemma_number_is_line(n: Seq<char>)
    requires
        n.len() > 0,
        all_digits(n),
    ensures
        is_line(n),
        trim(n) == n,
{
    assert(is_digit(n[0]) && is_digit(n[n.len() - 1]));
    assert(!is_space(n[0]));
    assert forall|k: int| 0 <= k < n.len() implies #[trigger] n[k] != '\n' && n[k] != '\r' by {
        assert(is_digit(n[k]));
    }
    lemma_trim_keeps(n);
}

/// The lines of a written cue can all stand in a document.
proof fn lemma_written_lines(w: WrittenCue, n: int)
    requires
        is_writable(w),
        w.before matches Some(line) ==> is_line(line),
        n == (if w.before is Some { 1int } else { 0 }),
    ensures
        are_lines(written_lines(w)),
        written_lines(w).len() == n + 1 + w.text.len(),
        w.before matches Some(line) ==> written_lines(w)[0] == line,
        written_lines(w)[n] == timing_line(w),
        written_lines(w).skip(n + 1) == w.text,
        written_lines(w).last() == w.text.last(),
{
    let ls = written_lines(w);
    lemma_timing_line(w);
    assert forall|i: int| 0 <= i < ls.len() implies is_line(#[trigger] ls[i]) by {
        if i > n {
            assert(ls[i] == w.text[i - n - 1]);
        }
    }
    assert(ls.skip(n + 1) == w.text);
}

proof fn lemma_srt_block(w: WrittenCue)
    requires
        is_srt(w),
    ensures
        is_block(written_block(w)),
        srt_cue(written_block(w)) == Some(read_cue(w)),
{
    let ls = written_lines(w);
    let n = if w.before is Some {
        1int
    } else {
        0
    };
    if let Some(number) = w.before {
        lemma_number_is_line(number);
    } else {
        lemma_arrow_is_no_number(w);
    }
    lemma_written_lines(w, n);
    lemma_lines_form_block(ls);
    lemma_lines_of_join(ls);
    lemma_filled_keeps(ls);
    let rest = ls.skip(n);
    assert(rest == (if all_digits(trim(ls[0])) {
        ls.skip(1)
    } else {
        ls
    }));
    assert(rest[0] == timing_line(w));
    assert(rest.skip(1) == ls.skip(n + 1));
    lemma_timing_line(w);
    lemma_stamp_stands_alone(w.start);
    lemma_stamp_stands_alone(w.end);
    assert(seq![' '] + w.end + w.settings == seq![' '] + w.end);
    lemma_plain_text(w, w.start + seq![' '], seq![' '] + w.end);
}

/// A timing line is no number.
proof fn lemma_arrow_is_no_number(w: WrittenCue)
    requires
        is_srt(w),
    ensures
        !all_digits(trim(timing_line(w))),
{
    let line = timing_line(w);
    let n = w.start.len() as int;
    assert(line.last() == w.end[w.end.len() - 1]);
    assert(line[0] == w.start[0]);
    lemma_trim_keeps(line);
    assert(line[n + 1] == '-');
    assert(!is_digit(line[n + 1]));
}

/// An SRT document gives back the cues that it was written from: as many, in the
/// same order, each from its first timestamp to its second and with all lines of
/// its text. Whether the cues are numbered makes no difference.
pub proof fn law_srt_round_trip(ws: Seq<WrittenCue>)
    requires
        ws.len() > 0,
        forall|i: int| 0 <= i < ws.len() ==> is_srt(#[trigger] ws[i]),
    ensures
        srt_cues(document(written_blocks(ws))) == read_cues(ws),
{
    let bs = written_blocks(ws);
    let f = |b: Seq<char>| srt_cue(b);
    assert forall|i: int| 0 <= i < bs.len() implies is_block(#[trigger] bs[i]) && f(bs[i]) == Some(
        read_cues(ws)[i],
    ) by {
        assert(is_srt(ws[i]));
        lemma_srt_block(ws[i]);
    }
    lemma_blocks(bs);
    lemma_all_gathered(bs, f, read_cues(ws));
}

// ---- WebVTT ----------------------------------------------------------------

/// Whether a text begins like a header, a note or a definition.
pub open spec fn begins_like_meta(s: Seq<char>) -> bool {
    ||| starts_with(s, "WEBVTT"@)
    ||| starts_with(s, "NOTE"@)
    ||| starts_with(s, "STYLE"@)
    ||| starts_with(s, "REGION"@)
}

/// Whether a cue can be written in a WebVTT document: what stands before the
/// timing is an identifier.
pub open spec fn is_vtt(w: WrittenCue) -> bool {
    &&& is_writable(w)
    &&& w.before matches Some(id) ==> {
        is_line(id) && !is_space(id[0]) && !id.contains('>') && !begins_like_meta(id)
    }
}

/// What a text of several lines begins with, its first line does, unless that
/// holds a line break.
proof fn lemma_begins_in_first_line(line: Seq<char>, rest: Seq<char>, p: Seq<char>)
    requires
        starts_with(line + seq!['\n'] + rest, p),
        !p.contains('\n'),
    ensures
        starts_with(line, p),
{
    let s = line + seq!['\n'] + rest;
    let n = line.len() as int;
    if n < p.len() {
        assert(s.subrange(0, p.len() as int)[n] == '\n');
        assert(p.contains(p[n]));
    }
    assert(line.subrange(0, p.len() as int) == s.subrange(0, p.len() as int));
}

/// The block of a cue is no header, note or definition.
proof fn lemma_cue_is_no_meta(w: WrittenCue)
    requires
        is_vtt(w),
        is_block(written_block(w)),
    ensures
        !is_vtt_meta(written_block(w)),
{
    reveal_strlit("WEBVTT");
    reveal_strlit("NOTE");
    reveal_strlit("STYLE");
    reveal_strlit("REGION");
    let block = written_block(w);
    let ls = written_lines(w);
    lemma_join_first(ls, seq!['\n']);
    let rest = join(ls.skip(1), seq!['\n']);
    assert(block == ls[0] + seq!['\n'] + rest);
    if is_vtt_meta(block) {
        if let Some(id) = w.before {
            assert(ls[0] == id);
            if starts_with(block, "WEBVTT"@) {
                lemma_begins_in_first_line(id, rest, "WEBVTT"@);
            } else if starts_with(block, "NOTE"@) {
                lemma_begins_in_first_line(id, rest, "NOTE"@);
            } else if starts_with(block, "STYLE"@) {
                lemma_begins_in_first_line(id, rest, "STYLE"@);
            } else {
                lemma_begins_in_first_line(id, rest, "REGION"@);
            }
        } else {
            assert(block[0] == w.start[0]);
            assert(block.subrange(0, 4)[0] == block[0]);
            if starts_with(block, "WEBVTT"@) {
                assert(block.subrange(0, 6)[0] == 'W');
            } else if starts_with(block, "NOTE"@) {
                assert(block.subrange(0, 4)[0] == 'N');
            } else if starts_with(block, "STYLE"@) {
                assert(block.subrange(0, 5)[0] == 'S');
            } else {
                assert(block.subrange(0, 6)[0] == 'R');
            }
        }
    }
}

/// The second timestamp is the word behind the arrow.
proof fn lemma_end_is_a_word(w: WrittenCue)
    requires
        is_writable(w),
    ensures
        first_word(seq![' '] + w.end + w.settings) == w.end,
{
    let s = seq![' '] + w.end + w.settings;
    let t = w.end + w.settings;
    assert(is_space(' '));
    assert(s.drop_first() == t);
    assert(!is_space(w.end[0]));
    assert(t[0] == w.end[0]);
    assert(trim_start(s) == trim_start(t));
    assert(trim_start(t) == t);
    let f = |c: char| !is_space(c);
    assert forall|i: int| 0 <= i < w.end.len() implies f(#[trigger] t[i]) by {
        assert(t[i] == w.end[i]);
    }
    if w.end.len() < t.len() {
        assert(t[w.end.len() as int] == w.settings[0]);
    }
    lemma_run_is(t, f, w.end.len());
    assert(t.take(w.end.len() as int) == w.end);
}

proof fn lemma_vtt_block(w: WrittenCue)
    requires
        is_vtt(w),
    ensures
        is_block(written_block(w)),
        vtt_cue(written_block(w)) == Some(read_cue(w)),
{
    reveal_strlit("-->");
    let ls = written_lines(w);
    let n = if w.before is Some {
        1int
    } else {
        0
    };
    lemma_timing_line(w);
    lemma_written_lines(w, n);
    if let Some(id) = w.before {
        assert(!contains(id, "-->"@)) by {
            if contains(id, "-->"@) {
                let i = choose|i: int| #[trigger] matches_at(id, "-->"@, i);
                assert(id.subrange(i, i + 3)[2] == id[i + 2]);
                assert(id.contains(id[i + 2]));
            }
        }
    }
    lemma_lines_form_block(ls);
    lemma_lines_of_join(ls);
    assert(timing_line(w)[0] == w.start[0] && !is_space(w.start[0]));
    lemma_trim_keeps(written_block(w));
    lemma_cue_is_no_meta(w);
    lemma_filled_keeps(w.text);
    lemma_stamp_stands_alone(w.start);
    lemma_end_is_a_word(w);
    lemma_plain_text(w, w.start + seq![' '], w.end);
}

/// A block that begins with a word still does once it is trimmed.
proof fn lemma_trim_keeps_first_word(block: Seq<char>, p: Seq<char>)
    requires
        starts_with(block, p),
        p.len() > 0 && !is_space(p[0]) && !is_space(p.last()),
    ensures
        starts_with(trim(block), p),
{
    let n = p.len() as int;
    assert(block.subrange(0, n)[0] == block[0]);
    assert(block.subrange(0, n)[n - 1] == block[n - 1]);
    assert(trim_start(block) == block);
    lemma_trim_end_leaves(block, n - 1);
    assert(trim(block).subrange(0, n) == block.subrange(0, n));
}

proof fn lemma_meta_gives_no_cue(block: Seq<char>)
    requires
        begins_like_meta(block),
    ensures
        vtt_cue(block) is None,
{
    reveal_strlit("WEBVTT");
    reveal_strlit("NOTE");
    reveal_strlit("STYLE");
    reveal_strlit("REGION");
    if starts_with(block, "WEBVTT"@) {
        lemma_trim_keeps_first_word(block, "WEBVTT"@);
    } else if starts_with(block, "NOTE"@) {
        lemma_trim_keeps_first_word(block, "NOTE"@);
    } else if starts_with(block, "STYLE"@) {
        lemma_trim_keeps_first_word(block, "STYLE"@);
    } else {
        lemma_trim_keeps_first_word(block, "REGION"@);
    }
}

/// The header, notes and definitions of a WebVTT document say nothing of its
/// cues: without such a block the cues are the same.
pub proof fn law_vtt_notes_say_nothing(a: Seq<Seq<char>>, note: Seq<char>, b: Seq<Seq<char>>)
    requires
        a.len() + b.len() > 0,
        forall|i: int| 0 <= i < a.len() ==> is_block(#[trigger] a[i]),
        forall|i: int| 0 <= i < b.len() ==> is_block(#[trigger] b[i]),
        is_block(note),
        begins_like_meta(note),
    ensures
        vtt_cues(document(a + seq![note] + b)) == vtt_cues(document(a + b)),
{
    let f = |b: Seq<char>| vtt_cue(b);
    lemma_meta_gives_no_cue(note);
    lemma_gathered_without(a, note, b, f);
    lemma_blocks(a + seq![note] + b);
    lemma_blocks(a + b);
}

/// A WebVTT document gives back the cues that it was written from: as many, in
/// the same order, each from its first timestamp to its second and with all lines
/// of its text. The header, identifiers and settings are no part of the text.
pub proof fn law_vtt_round_trip(header: Seq<char>, ws: Seq<WrittenCue>)
    requires
        is_block(header),
        starts_with(header, "WEBVTT"@),
        forall|i: int| 0 <= i < ws.len() ==> is_vtt(#[trigger] ws[i]),
    ensures
        vtt_cues(document(seq![header] + written_blocks(ws))) == read_cues(ws),
{
    let bs = written_blocks(ws);
    let all = seq![header] + bs;
    let f = |b: Seq<char>| vtt_cue(b);
    assert forall|i: int| 0 <= i < bs.len() implies is_block(#[trigger] bs[i]) && f(bs[i]) == Some(
        read_cues(ws)[i],
    ) by {
        assert(is_vtt(ws[i]));
        lemma_vtt_block(ws[i]);
    }
    assert forall|i: int| 0 <= i < all.len() implies is_block(#[trigger] all[i]) by {
        if i > 0 {
            assert(all[i] == bs[i - 1]);
        }
    }
    lemma_blocks(all);
    lemma_meta_gives_no_cue(header);
    let none = Seq::<Seq<char>>::empty();
    lemma_gathered_without(none, header, bs, f);
    assert(none + seq![header] + bs == all);
    assert(none + bs == bs);
    lemma_all_gathered(bs, f, read_cues(ws));
}

// ---- Line endings ----------------------------------------------------------

/// A text with the line endings of other systems: a carriage return before each
/// line break.
pub open spec fn with_carriage_returns(s: Seq<char>) -> Seq<char>
    decreases s.len(),
{
    if s.len() == 0 {
        seq![]
    } else if s[0] == '\n' {
        seq!['\r', '\n'] + with_carriage_returns(s.drop_first())
    } else {
        seq![s[0]] + with_carriage_returns(s.drop_first())
    }
}

/// A text that holds no carriage return at its beginning is replaced behind it.
proof fn lemma_replace_behind(c: char, rest: Seq<char>)
    requires
        c != '\r',
    ensures
        replace(seq![c] + rest, "\r\n"@, "\n"@) == seq![c] + replace(rest, "\r\n"@, "\n"@),
{
    reveal_strlit("\r\n");
    let (p, q) = ("\r\n"@, "\n"@);
    let s = seq![c] + rest;
    lemma_find(s, p);
    lemma_find(rest, p);
    assert(!matches_at(s, p, 0)) by {
        if matches_at(s, p, 0) {
            assert(s.subrange(0, 2)[0] == c);
        }
    }
    assert forall|k: int| 0 <= k implies #[trigger] matches_at(rest, p, k) == matches_at(
        s,
        p,
        k + 1,
    ) by {
        if k + 2 <= rest.len() {
            assert(rest.subrange(k, k + 2) == s.subrange(k + 1, k + 3));
        }
    }
    if contains(rest, p) {
        let at = find(rest, p)->0;
        assert(matches_at(s, p, at + 1));
        assert forall|k: int| 0 <= k < at + 1 implies !#[trigger] matches_at(s, p, k) by {
            if k > 0 {
                assert(!matches_at(rest, p, k - 1));
            }
        }
        lemma_find_is(s, p, at + 1);
        assert(s.take(at + 1) == seq![c] + rest.take(at));
        assert(s.skip(at + 3) == rest.skip(at + 2));
        assert(replace(rest, p, q) == rest.take(at) + q + replace(rest.skip(at + 2), p, q));
        assert(replace(s, p, q) == s.take(at + 1) + q + replace(s.skip(at + 3), p, q));
    } else if contains(s, p) {
        let at = find(s, p)->0;
        assert(matches_at(rest, p, at - 1));
    }
}

proof fn lemma_carriage_returns_go(s: Seq<char>)
    requires
        !s.contains('\r'),
    ensures
        replace(with_carriage_returns(s), "\r\n"@, "\n"@) == s,
    decreases s.len(),
{
    reveal_strlit("\r\n");
    reveal_strlit("\n");
    let (p, q) = ("\r\n"@, "\n"@);
    if s.len() == 0 {
        lemma_nothing_to_replace(s);
    } else {
        let rest = s.drop_first();
        assert(s == seq![s[0]] + rest);
        assert(s.contains(s[0]));
        if rest.contains('\r') {
            let k = choose|k: int| 0 <= k < rest.len() && rest[k] == '\r';
            assert(s.contains(s[k + 1]));
        }
        lemma_carriage_returns_go(rest);
        let tail = with_carriage_returns(rest);
        if s[0] == '\n' {
            let whole = p + tail;
            assert(whole == seq!['\r', '\n'] + tail);
            assert(whole.subrange(0, 2) == p);
            lemma_find_is(whole, p, 0);
            assert(whole.take(0) == Seq::<char>::empty());
            assert(whole.skip(2) == tail);
            assert(replace(whole, p, q) == whole.take(0) + q + replace(tail, p, q));
        } else {
            lemma_replace_behind(s[0], tail);
        }
    }
}

/// Whether the lines of a document end with a carriage return makes no difference.
pub proof fn law_line_endings_do_not_matter(doc: Seq<char>)
    requires
        !doc.contains('\r'),
    ensures
        srt_cues(with_carriage_returns(doc)) == srt_cues(doc),
        vtt_cues(with_carriage_returns(doc)) == vtt_cues(doc),
{
    lemma_carriage_returns_go(doc);
    lemma_nothing_to_replace(doc);
}

// ---- Laws ------------------------------------------------------------------

// ---- Other blocks ----------------------------------------------------------

/// A line without an arrow is no timing line.
proof fn lemma_no_arrow(line: Seq<char>)
    requires
        !line.contains('>'),
    ensures
        !contains(line, "-->"@),
        split_once(line, "-->"@) is None,
{
    reveal_strlit("-->");
    lemma_find(line, "-->"@);
    if contains(line, "-->"@) {
        let i = choose|i: int| #[trigger] matches_at(line, "-->"@, i);
        assert(line.subrange(i, i + 3)[2] == line[i + 2]);
        assert(line.contains(line[i + 2]));
    }
}

proof fn lemma_untimed_block(ls: Seq<Seq<char>>)
    requires
        ls.len() > 0,
        are_lines(ls),
        forall|i: int| 0 <= i < ls.len() ==> !(#[trigger] ls[i]).contains('>'),
        !is_space(ls[0][0]) && !is_space(ls.last().last()),
    ensures
        is_block(join(ls, seq!['\n'])),
        srt_cue(join(ls, seq!['\n'])) is None,
        vtt_cue(join(ls, seq!['\n'])) is None,
{
    let block = join(ls, seq!['\n']);
    lemma_lines_form_block(ls);
    lemma_lines_of_join(ls);
    lemma_filled_keeps(ls);
    lemma_trim_keeps(block);
    lemma_no_arrow(ls[0]);
    if ls.len() > 1 {
        lemma_no_arrow(ls[1]);
    }
}

/// A block without a timing line gives no cue, and those around it give theirs: without
/// it the cues are the same.
pub proof fn law_untimed_blocks_say_nothing(
    a: Seq<Seq<char>>,
    ls: Seq<Seq<char>>,
    b: Seq<Seq<char>>,
)
    requires
        a.len() + b.len() > 0,
        forall|i: int| 0 <= i < a.len() ==> is_block(#[trigger] a[i]),
        forall|i: int| 0 <= i < b.len() ==> is_block(#[trigger] b[i]),
        ls.len() > 0,
        are_lines(ls),
        forall|i: int| 0 <= i < ls.len() ==> !(#[trigger] ls[i]).contains('>'),
        !is_space(ls[0][0]) && !is_space(ls.last().last()),
    ensures
        srt_cues(document(a + seq![join(ls, seq!['\n'])] + b)) == srt_cues(document(a + b)),
        vtt_cues(document(a + seq![join(ls, seq!['\n'])] + b)) == vtt_cues(document(a + b)),
{
    let c = join(ls, seq!['\n']);
    let f = |b: Seq<char>| srt_cue(b);
    let g = |b: Seq<char>| vtt_cue(b);
    lemma_untimed_block(ls);
    lemma_gathered_without(a, c, b, f);
    lemma_gathered_without(a, c, b, g);
    lemma_blocks(a + seq![c] + b);
    lemma_blocks(a + b);
}

} // verus!
