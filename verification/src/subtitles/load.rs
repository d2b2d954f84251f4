//! From the bytes of a subtitle file to its track.

use super::ass::{ass_cues, parse_ass};
use super::parse::{SubtitleError, parse_srt, parse_vtt, srt_cues, vtt_cues};
use super::track::{Cue, SubtitleTrack, cues, in_order, is_sorted};
use crate::paths::{extension, extension_of, is_name, law_stem_and_extension};
use crate::text::{
    contains, from_chars, has_prefix, has_text, is_space, lowercase, lowered, matches_at, same_str,
    starts_with, to_chars, trim_start, trimmed_start,
};
use vstd::prelude::*;
use vstd::utf8::{decode_utf8, valid_utf8};

verus! {

// ---- Bytes -----------------------------------------------------------------

/// `raw` without a byte order mark at its beginning.
pub open spec fn without_bom(raw: Seq<u8>) -> Seq<u8> {
    if raw.len() >= 3 && raw[0] == 0xef && raw[1] == 0xbb && raw[2] == 0xbf {
        raw.skip(3)
    } else {
        raw
    }
}

/// The text of a file: UTF-8 or, failing that, Latin-1.
pub open spec fn decoded(raw: Seq<u8>) -> Seq<char> {
    let bytes = without_bom(raw);
    if valid_utf8(bytes) {
        decode_utf8(bytes)
    } else {
        Seq::new(bytes.len(), |i: int| bytes[i] as char)
    }
}

/// `std::str::from_utf8`: the text that the bytes encode, where they are valid
/// UTF-8, and nothing where they are not.
#[verifier::external_body]
fn utf8_text(raw: &[u8]) -> (r: Option<String>)
    ensures
        r is Some <==> valid_utf8(raw@),
        r matches Some(text) ==> text@ == decode_utf8(raw@),
{
    match std::str::from_utf8(raw) {
        Ok(text) => Some(text.to_string()),
        Err(_) => None,
    }
}

/// The text of a file. A byte order mark is dropped; what is not UTF-8 is read
/// as Latin-1.
pub fn decode_text(raw: &[u8]) -> (r: String)
    ensures
        r@ == decoded(raw@),
{
    let n: usize = raw.len();
    let bytes = if n >= 3 && raw[0] == 0xef && raw[1] == 0xbb && raw[2] == 0xbf {
        vstd::slice::slice_subrange(raw, 3, n)
    } else {
        raw
    };
    assert(bytes@ == without_bom(raw@));
    match utf8_text(bytes) {
        Some(text) => text,
        None => {
            let mut out: Vec<char> = Vec::new();
            let mut i: usize = 0;
            while i < bytes.len()
                invariant
                    i <= bytes@.len(),
                    out@ == Seq::new(i as nat, |k: int| bytes@[k] as char),
                decreases bytes@.len() - i,
            {
                out.push(bytes[i] as char);
                i = i + 1;
            }
            from_chars(&out)
        },
    }
}

// ---- Formats ---------------------------------------------------------------

/// The subtitle file formats.
#[derive(Debug, Clone, Copy, PartialEq, Eq, Structural)]
pub enum SubtitleFormat {
    Srt,
    Vtt,
    Ass,
}

/// The format of a file, by its extension or else by its text.
pub open spec fn format_of(path: Seq<char>, text: Seq<char>) -> SubtitleFormat {
    let ext = match extension(path) {
        Some(e) => lowered(e),
        None => seq![],
    };
    if ext == "srt"@ {
        SubtitleFormat::Srt
    } else if ext == "vtt"@ {
        SubtitleFormat::Vtt
    } else if ext == "ass"@ || ext == "ssa"@ {
        SubtitleFormat::Ass
    } else if starts_with(trim_start(text), "WEBVTT"@) {
        SubtitleFormat::Vtt
    } else if contains(text, "[Script Info]"@) || contains(text, "Dialogue:"@) {
        SubtitleFormat::Ass
    } else {
        SubtitleFormat::Srt
    }
}

/// The cues of a text in the given format.
pub open spec fn cues_of(format: SubtitleFormat, text: Seq<char>) -> Seq<Cue> {
    match format {
        SubtitleFormat::Srt => srt_cues(text),
        SubtitleFormat::Vtt => vtt_cues(text),
        SubtitleFormat::Ass => ass_cues(text),
    }
}

/// The format of a file, by its extension or else by its text.
pub fn detect_format(path: &str, text: &str) -> (format: SubtitleFormat)
    ensures
        format == format_of(path@, text@),
{
    let path = to_chars(path);
    let ext: Vec<char> = match extension_of(&path) {
        Some(e) => lowercase(e),
        None => Vec::new(),
    };
    assert(extension(path@) is None ==> ext@ == Seq::<char>::empty());
    let text = to_chars(text);
    if same_str("srt", &ext) {
        SubtitleFormat::Srt
    } else if same_str("vtt", &ext) {
        SubtitleFormat::Vtt
    } else if same_str("ass", &ext) || same_str("ssa", &ext) {
        SubtitleFormat::Ass
    } else if has_prefix(trimmed_start(&text), "WEBVTT") {
        SubtitleFormat::Vtt
    } else if has_text(&text, "[Script Info]") || has_text(&text, "Dialogue:") {
        SubtitleFormat::Ass
    } else {
        SubtitleFormat::Srt
    }
}

/// The track of the subtitle file at `path`, which holds the bytes `raw`.
pub fn load_file(path: &str, raw: &[u8]) -> (r: Result<SubtitleTrack, SubtitleError>)
    ensures
        ({
            let text = decoded(raw@);
            let found = cues_of(format_of(path@, text), text);
            match r {
                Ok(track) => found.len() > 0 && track@ == in_order(found) && is_sorted(track@),
                Err(SubtitleError::NoCue(p)) => found.len() == 0 && p@ == path@,
            }
        }),
{
    let text = decode_text(raw);
    let result = match detect_format(path, text.as_str()) {
        SubtitleFormat::Srt => parse_srt(text.as_str()),
        SubtitleFormat::Vtt => parse_vtt(text.as_str()),
        SubtitleFormat::Ass => parse_ass(text.as_str()),
    };
    match result {
        Ok(list) => {
            assert(cues(list@).len() == list@.len());
            if list.len() == 0 {
                Err(SubtitleError::NoCue(path.to_owned()))
            } else {
                Ok(SubtitleTrack::new(list))
            }
        },
        Err(e) => Err(e),
    }
}

// ---- Laws ------------------------------------------------------------------

/// A byte order mark before a text is no part of it.
pub proof fn law_byte_order_mark_is_dropped(raw: Seq<u8>)
    requires
        !(raw.len() >= 3 && raw[0] == 0xef && raw[1] == 0xbb && raw[2] == 0xbf),
    ensures
        decoded(seq![0xefu8, 0xbb, 0xbf] + raw) == decoded(raw),
        valid_utf8(raw) ==> decoded(raw) == decode_utf8(raw),
        !valid_utf8(raw) ==> decoded(raw).len() == raw.len() && forall|i: int|
            0 <= i < raw.len() ==> (#[trigger] decoded(raw)[i]) as u32 == raw[i],
{
    assert((seq![0xefu8, 0xbb, 0xbf] + raw).skip(3) == raw);
}

/// A file that bears the extension of a format is read in it, in whatever case the
/// extension is written.
pub proof fn law_format_goes_by_the_extension(
    before: Seq<char>,
    stem: Seq<char>,
    ext: Seq<char>,
    text: Seq<char>,
)
    requires
        stem.len() > 0,
        !ext.contains('.'),
        is_name(stem + seq!['.'] + ext),
    ensures
        ({
            let path = before + seq!['/'] + (stem + seq!['.'] + ext);
            let e = lowered(ext);
            &&& e == "srt"@ ==> format_of(path, text) == SubtitleFormat::Srt
            &&& e == "vtt"@ ==> format_of(path, text) == SubtitleFormat::Vtt
            &&& e == "ass"@ || e == "ssa"@ ==> format_of(path, text) == SubtitleFormat::Ass
            &&& e != "srt"@ && e != "vtt"@ && e != "ass"@ && e != "ssa"@ ==> {
                &&& starts_with(text, "WEBVTT"@) ==> format_of(path, text) == SubtitleFormat::Vtt
                &&& !contains(text, "WEBVTT"@) && (contains(text, "Dialogue:"@) || contains(
                    text,
                    "[Script Info]"@,
                )) ==> format_of(path, text) == SubtitleFormat::Ass
                &&& !contains(text, "WEBVTT"@) && !contains(text, "Dialogue:"@) && !contains(
                    text,
                    "[Script Info]"@,
                ) ==> format_of(path, text) == SubtitleFormat::Srt
            }
        }),
        cues_of(SubtitleFormat::Srt, text) == srt_cues(text),
        cues_of(SubtitleFormat::Vtt, text) == vtt_cues(text),
        cues_of(SubtitleFormat::Ass, text) == ass_cues(text),
{
    law_stem_and_extension(before, stem, ext);
    reveal_strlit("srt");
    reveal_strlit("vtt");
    reveal_strlit("ass");
    reveal_strlit("ssa");
    assert("vtt"@[0] == 'v' && "srt"@[0] == 's' && "ass"@[0] == 'a');
    assert("srt"@[1] == 'r' && "ssa"@[1] == 's');
    reveal_strlit("WEBVTT");
    let p = "WEBVTT"@;
    if starts_with(text, p) {
        assert(text.subrange(0, 6)[0] == text[0]);
        assert(trim_start(text) == text);
    }
    if starts_with(trim_start(text), p) {
        lemma_trim_start_is_a_tail(text);
        let k = text.len() - trim_start(text).len();
        assert(text.subrange(k, k + 6) == trim_start(text).subrange(0, 6));
        assert(matches_at(text, p, k));
    }
}

/// What is left without the white space before it stands at the end of the text.
proof fn lemma_trim_start_is_a_tail(s: Seq<char>)
    ensures
        trim_start(s).len() <= s.len(),
        trim_start(s) == s.skip(s.len() - trim_start(s).len()),
    decreases s.len(),
{
    if s.len() > 0 && is_space(s[0]) {
        let rest = s.drop_first();
        lemma_trim_start_is_a_tail(rest);
        assert(trim_start(s) == s.skip(s.len() - trim_start(s).len()));
    } else {
        assert(s.skip(0) == s);
    }
}

} // verus!
