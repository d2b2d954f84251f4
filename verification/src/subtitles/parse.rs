//! The subtitle file formats.

use super::markup::{html_stripped, strip_html_tags};
use super::timestamp::{parse_timestamp, timestamp_us};
use super::track::{Cue, SubtitleCue, cues, plain_cue};
use crate::number::{is_ascii_digit, is_digit};
use crate::text::{
    contains, cut, from_chars, has_prefix, has_text, is_blank, is_space, is_whitespace, join,
    join_text, lemma_run_is, lemma_trimmed_ends, lines, lines_of, part, push_text, replace,
    replace_text, run, split, split_once, split_text, starts_with, texts, to_chars, trim,
    trim_start, trimmed, trimmed_start,
};
use vstd::prelude::*;

verus! {

/// Why a subtitle file gives no track.
#[derive(Debug, PartialEq)]
pub enum SubtitleError {
    /// The file at this path holds no cue.
    NoCue(String),
}

impl SubtitleError {
    /// What to tell the user.
    pub fn message(&self) -> (r: String)
        ensures
            r@ == "aucune réplique trouvée dans "@ + self->NoCue_0@,
    {
        match self {
            SubtitleError::NoCue(path) => {
                let mut out = to_chars("aucune réplique trouvée dans ");
                push_text(&mut out, path.as_str());
                from_chars(&out)
            },
        }
    }
}

// ---- Blocks of lines -------------------------------------------------------

/// The lines that are not blank.
pub open spec fn filled(ls: Seq<Seq<char>>) -> Seq<Seq<char>>
    decreases ls.len(),
{
    if ls.len() == 0 {
        seq![]
    } else if trim(ls.last()).len() > 0 {
        filled(ls.drop_last()).push(ls.last())
    } else {
        filled(ls.drop_last())
    }
}

/// The blocks of a document, which blank lines separate.
pub open spec fn blocks(doc: Seq<char>) -> Seq<Seq<char>> {
    split(replace(doc, "\r\n"@, "\n"@), "\n\n"@)
}

/// The cue of a plain text given by its timing and its lines, unless a
/// timestamp is malformed or the text is blank.
pub open spec fn text_cue(start: Seq<char>, end: Seq<char>, body: Seq<Seq<char>>) -> Option<Cue> {
    let text = trim(html_stripped(join(body, "\n"@)).0);
    match (timestamp_us(start), timestamp_us(end)) {
        (Some(s), Some(e)) if text.len() > 0 => Some(plain_cue(s, e, text)),
        _ => None,
    }
}

/// The cues of the elements that give one.
pub open spec fn gathered(s: Seq<Seq<char>>, f: spec_fn(Seq<char>) -> Option<Cue>) -> Seq<Cue>
    decreases s.len(),
{
    if s.len() == 0 {
        seq![]
    } else {
        match f(s.last()) {
            Some(cue) => gathered(s.drop_last(), f).push(cue),
            None => gathered(s.drop_last(), f),
        }
    }
}

/// The lines that are not blank.
fn filled_lines<'a>(ls: &[&'a [char]], from: usize) -> (r: Vec<&'a [char]>)
    requires
        from <= ls@.len(),
    ensures
        texts(r@) == filled(texts(ls@).skip(from as int)),
{
    let mut out: Vec<&'a [char]> = Vec::new();
    let ghost all = texts(ls@).skip(from as int);
    let mut i: usize = from;
    assert(all.take(0) == Seq::<Seq<char>>::empty());
    while i < ls.len()
        invariant
            from <= i <= ls@.len(),
            all == texts(ls@).skip(from as int),
            texts(out@) == filled(all.take(i - from)),
        decreases ls@.len() - i,
    {
        let ghost before = texts(out@);
        assert(all.take(i + 1 - from).drop_last() == all.take(i - from));
        assert(all.take(i + 1 - from).last() == ls@[i as int]@);
        if !is_blank(ls[i]) {
            out.push(ls[i]);
            assert(texts(out@) == before.push(ls@[i as int]@));
        }
        i = i + 1;
    }
    assert(all.take(ls@.len() - from) == all);
    out
}

/// The cue of a plain text, unless a timestamp is malformed or the text is
/// blank.
fn make_cue(start: &[char], end: &[char], body: &[&[char]]) -> (r: Option<SubtitleCue>)
    ensures
        r matches Some(cue) ==> text_cue(start@, end@, texts(body@)) == Some(cue@),
        r is None ==> text_cue(start@, end@, texts(body@)) is None,
{
    let start_us: i64 = match parse_timestamp(start) {
        Some(v) => v,
        None => return None,
    };
    let end_us: i64 = match parse_timestamp(end) {
        Some(v) => v,
        None => return None,
    };
    let joined = join_text(body, "\n");
    let stripped = strip_html_tags(&joined);
    let text = trimmed(&stripped);
    if text.len() > 0 {
        Some(SubtitleCue::plain(start_us, end_us, from_chars(text)))
    } else {
        None
    }
}

// ---- SRT -------------------------------------------------------------------

/// Whether `s` holds nothing but digits.
pub open spec fn all_digits(s: Seq<char>) -> bool {
    forall|i: int| 0 <= i < s.len() ==> is_digit(#[trigger] s[i])
}

/// The cue of an SRT block: a sequence number, which may be missing, a timing
/// line, and the text.
pub open spec fn srt_cue(block: Seq<char>) -> Option<Cue> {
    let all = filled(lines(block));
    let rest = if all.len() > 0 && all_digits(trim(all[0])) {
        all.skip(1)
    } else {
        all
    };
    if rest.len() == 0 {
        None
    } else {
        match split_once(rest[0], "-->"@) {
            Some((start, end)) => text_cue(start, end, rest.skip(1)),
            None => None,
        }
    }
}

/// The cues of an SRT document.
pub open spec fn srt_cues(doc: Seq<char>) -> Seq<Cue> {
    gathered(blocks(doc), |b: Seq<char>| srt_cue(b))
}

/// Whether `s` holds nothing but digits.
fn only_digits(s: &[char]) -> (r: bool)
    ensures
        r == all_digits(s@),
{
    let mut i: usize = 0;
    while i < s.len()
        invariant
            i <= s@.len(),
            forall|k: int| 0 <= k < i ==> is_digit(#[trigger] s@[k]),
        decreases s@.len() - i,
    {
        if !is_ascii_digit(s[i]) {
            assert(!is_digit(s@[i as int]));
            return false;
        }
        i = i + 1;
    }
    true
}

/// The elements of a list of slices from `from` on.
fn rest_of<'a>(ls: &[&'a [char]], from: usize) -> (r: Vec<&'a [char]>)
    requires
        from <= ls@.len(),
    ensures
        texts(r@) == texts(ls@).skip(from as int),
{
    let mut out: Vec<&'a [char]> = Vec::new();
    let mut i: usize = from;
    while i < ls.len()
        invariant
            from <= i <= ls@.len(),
            out@ == ls@.subrange(from as int, i as int),
        decreases ls@.len() - i,
    {
        out.push(ls[i]);
        i = i + 1;
    }
    assert(texts(out@) == texts(ls@).skip(from as int));
    out
}

/// The cue of an SRT block.
fn parse_srt_block(block: &[char]) -> (r: Option<SubtitleCue>)
    ensures
        r matches Some(cue) ==> srt_cue(block@) == Some(cue@),
        r is None ==> srt_cue(block@) is None,
{
    let ls = lines_of(block);
    assert(texts(ls@).skip(0) == lines(block@));
    let all = filled_lines(&ls, 0);
    let ghost a = texts(all@);
    assert(a.len() == all@.len());
    assert(all@.len() > 0 ==> a[0] == all@[0]@);
    let from: usize = if all.len() > 0 && only_digits(trimmed(all[0])) {
        1
    } else {
        0
    };
    let rest = rest_of(&all, from);
    let ghost b = texts(rest@);
    assert(from == 0 ==> b == a);
    assert(b.len() == rest@.len());
    if rest.len() == 0 {
        return None;
    }
    assert(b[0] == rest@[0]@);
    let arrow = to_chars("-->");
    match cut(rest[0], &arrow) {
        Some((start, end)) => {
            let body = rest_of(&rest, 1);
            make_cue(start, end, &body)
        },
        None => None,
    }
}

/// Reads an SRT document. A malformed block is ignored.
pub fn parse_srt(input: &str) -> (r: Result<Vec<SubtitleCue>, SubtitleError>)
    ensures
        r matches Ok(v) && cues(v@) == srt_cues(input@),
{
    let chars = to_chars(input);
    let crlf = to_chars("\r\n");
    let newline = to_chars("\n");
    let gap = to_chars("\n\n");
    proof {
        reveal_strlit("\r\n");
        reveal_strlit("\n\n");
    }
    let doc = replace_text(&chars, &crlf, &newline);
    let parts = split_text(&doc, &gap);
    let ghost all = blocks(input@);
    let ghost f = |b: Seq<char>| srt_cue(b);
    let mut out: Vec<SubtitleCue> = Vec::new();
    let mut i: usize = 0;
    assert(all.take(0) == Seq::<Seq<char>>::empty());
    while i < parts.len()
        invariant
            i <= parts@.len(),
            all == texts(parts@),
            f == (|b: Seq<char>| srt_cue(b)),
            cues(out@) == gathered(all.take(i as int), f),
        decreases parts@.len() - i,
    {
        let ghost before = cues(out@);
        assert(all.take(i + 1).drop_last() == all.take(i as int));
        assert(all.take(i + 1).last() == parts@[i as int]@);
        if let Some(cue) = parse_srt_block(parts[i]) {
            out.push(cue);
            assert(cues(out@) == before.push(cue@));
        }
        i = i + 1;
    }
    assert(all.take(parts@.len() as int) == all);
    Ok(out)
}

// ---- WebVTT ----------------------------------------------------------------

/// The first word of `s`, nothing where there is none.
pub open spec fn first_word(s: Seq<char>) -> Seq<char> {
    let t = trim_start(s);
    t.take(run(t, |c: char| !is_space(c)) as int)
}

/// Whether a block is the header, a note, or a definition.
pub open spec fn is_vtt_meta(block: Seq<char>) -> bool {
    ||| block.len() == 0
    ||| starts_with(block, "WEBVTT"@)
    ||| starts_with(block, "NOTE"@)
    ||| starts_with(block, "STYLE"@)
    ||| starts_with(block, "REGION"@)
}

/// The cue of a WebVTT block: an identifier, which may be missing, a timing
/// line with settings after it, and the text.
pub open spec fn vtt_cue(raw: Seq<char>) -> Option<Cue> {
    let block = trim(raw);
    let ls = lines(block);
    let at: int = if ls.len() > 0 && contains(ls[0], "-->"@) {
        0
    } else {
        1
    };
    if is_vtt_meta(block) || ls.len() <= at {
        None
    } else {
        match split_once(ls[at], "-->"@) {
            Some((start, end)) => text_cue(start, first_word(end), filled(ls.skip(at + 1))),
            None => None,
        }
    }
}

/// The cues of a WebVTT document.
pub open spec fn vtt_cues(doc: Seq<char>) -> Seq<Cue> {
    gathered(blocks(doc), |b: Seq<char>| vtt_cue(b))
}

/// The first word of `s`.
fn first_word_of<'a>(s: &'a [char]) -> (r: &'a [char])
    ensures
        r@ == first_word(s@),
{
    let t = trimmed_start(s);
    let mut k: usize = 0;
    while k < t.len() && !is_whitespace(t[k])
        invariant
            k <= t@.len(),
            forall|i: int| 0 <= i < k ==> !is_space(#[trigger] t@[i]),
        decreases t@.len() - k,
    {
        k = k + 1;
    }
    proof {
        lemma_run_is(t@, |c: char| !is_space(c), k as nat);
    }
    let r = part(t, 0, k);
    assert(r@ == t@.take(k as int));
    r
}

/// The cue of a WebVTT block.
fn parse_vtt_block(raw: &[char]) -> (r: Option<SubtitleCue>)
    ensures
        r matches Some(cue) ==> vtt_cue(raw@) == Some(cue@),
        r is None ==> vtt_cue(raw@) is None,
{
    let block = trimmed(raw);
    if block.len() == 0 || has_prefix(block, "WEBVTT") || has_prefix(block, "NOTE") || has_prefix(
        block,
        "STYLE",
    ) || has_prefix(block, "REGION") {
        return None;
    }
    let ls = lines_of(block);
    let ghost all = texts(ls@);
    assert(all.len() == ls@.len());
    assert(ls@.len() > 0 ==> all[0] == ls@[0]@);
    let at: usize = if ls.len() > 0 && has_text(ls[0], "-->") {
        0
    } else {
        1
    };
    if ls.len() <= at {
        return None;
    }
    assert(all[at as int] == ls@[at as int]@);
    let arrow = to_chars("-->");
    match cut(ls[at], &arrow) {
        Some((start, end)) => {
            let body = filled_lines(&ls, at + 1);
            make_cue(start, first_word_of(end), &body)
        },
        None => None,
    }
}

/// Reads a WebVTT document. A malformed block is ignored.
pub fn parse_vtt(input: &str) -> (r: Result<Vec<SubtitleCue>, SubtitleError>)
    ensures
        r matches Ok(v) && cues(v@) == vtt_cues(input@),
{
    let chars = to_chars(input);
    let crlf = to_chars("\r\n");
    let newline = to_chars("\n");
    let gap = to_chars("\n\n");
    proof {
        reveal_strlit("\r\n");
        reveal_strlit("\n\n");
    }
    let doc = replace_text(&chars, &crlf, &newline);
    let parts = split_text(&doc, &gap);
    let ghost all = blocks(input@);
    let ghost f = |b: Seq<char>| vtt_cue(b);
    let mut out: Vec<SubtitleCue> = Vec::new();
    let mut i: usize = 0;
    assert(all.take(0) == Seq::<Seq<char>>::empty());
    while i < parts.len()
        invariant
            i <= parts@.len(),
            all == texts(parts@),
            f == (|b: Seq<char>| vtt_cue(b)),
            cues(out@) == gathered(all.take(i as int), f),
        decreases parts@.len() - i,
    {
        let ghost before = cues(out@);
        assert(all.take(i + 1).drop_last() == all.take(i as int));
        assert(all.take(i + 1).last() == parts@[i as int]@);
        if let Some(cue) = parse_vtt_block(parts[i]) {
            out.push(cue);
            assert(cues(out@) == before.push(cue@));
        }
        i = i + 1;
    }
    assert(all.take(parts@.len() as int) == all);
    Ok(out)
}

// ---- Laws ------------------------------------------------------------------

/// Whether a text is neither empty nor has blanks at its ends.
pub open spec fn is_trimmed(text: Seq<char>) -> bool {
    text.len() > 0 && !is_space(text[0]) && !is_space(text.last())
}

proof fn lemma_gathered(s: Seq<Seq<char>>, f: spec_fn(Seq<char>) -> Option<Cue>)
    requires
        forall|b: Seq<char>| (#[trigger] f(b)) matches Some(cue) ==> is_trimmed(cue.text),
    ensures
        forall|i: int|
            0 <= i < gathered(s, f).len() ==> is_trimmed((#[trigger] gathered(s, f)[i]).text),
    decreases s.len(),
{
    if s.len() > 0 {
        lemma_gathered(s.drop_last(), f);
    }
}

proof fn lemma_text_cue(start: Seq<char>, end: Seq<char>, body: Seq<Seq<char>>)
    ensures
        text_cue(start, end, body) matches Some(cue) ==> is_trimmed(cue.text),
{
    lemma_trimmed_ends(html_stripped(join(body, "\n"@)).0);
}

/// Every cue of an SRT or WebVTT document shows something: its text is not
/// blank, and no blanks stand at its ends.
pub proof fn law_cues_are_not_blank(doc: Seq<char>, i: int)
    ensures
        0 <= i < srt_cues(doc).len() ==> is_trimmed(srt_cues(doc)[i].text),
        0 <= i < vtt_cues(doc).len() ==> is_trimmed(vtt_cues(doc)[i].text),
{
    let srt = |b: Seq<char>| srt_cue(b);
    assert forall|b: Seq<char>| (#[trigger] srt(b)) matches Some(cue) implies is_trimmed(
        srt(b)->0.text,
    ) by {
        let all = filled(lines(b));
        let rest = if all.len() > 0 && all_digits(trim(all[0])) {
            all.skip(1)
        } else {
            all
        };
        if let Some((start, end)) = split_once(rest[0], "-->"@) {
            lemma_text_cue(start, end, rest.skip(1));
        }
    }
    lemma_gathered(blocks(doc), srt);
    let vtt = |b: Seq<char>| vtt_cue(b);
    assert forall|b: Seq<char>| (#[trigger] vtt(b)) matches Some(cue) implies is_trimmed(
        vtt(b)->0.text,
    ) by {
        let ls = lines(trim(b));
        let at: int = if ls.len() > 0 && contains(ls[0], "-->"@) {
            0
        } else {
            1
        };
        if let Some((start, end)) = split_once(ls[at], "-->"@) {
            lemma_text_cue(start, first_word(end), filled(ls.skip(at + 1)));
        }
    }
    lemma_gathered(blocks(doc), vtt);
}

} // verus!
