//! Subtitle files beside a medium.

use crate::paths::{
    extension, extension_of, file_stem, file_stem_of, is_name, law_stem_and_extension,
};
use crate::settings::names;
use crate::streaming::strs;
use crate::subtitles::ass::{ass_cues, parse_ass};
use crate::subtitles::parse::{parse_srt, parse_vtt, srt_cues, vtt_cues};
use crate::subtitles::track::{Cue, SubtitleTrack, cues, in_order, is_sorted};
use crate::text::{is_match_at, lowercase, lowered, part, same, same_str, starts_with, to_chars};
use vstd::prelude::*;

verus! {

/// How well a file suits a medium.
#[derive(Debug, Clone, Copy, PartialEq, Eq, Structural)]
pub enum SidecarRank {
    /// It is no subtitle file of the medium.
    Unrelated,
    /// It is in another language.
    OtherLanguage,
    /// It has the name of the medium.
    Exact,
    /// It is in the preferred language.
    Preferred,
}

/// Whether a file has the extension of a subtitle format.
pub open spec fn is_subtitle_file(name: Seq<char>) -> bool {
    match extension(name) {
        None => false,
        Some(e) => {
            let l = lowered(e);
            l == "srt"@ || l == "ass"@ || l == "ssa"@ || l == "vtt"@
        },
    }
}

/// How well a file suits a medium: `<stem>.<language>.<ext>` in the preferred
/// language, `<stem>.<ext>`, or `<stem>.<anything>.<ext>`.
pub open spec fn rank(name: Seq<char>, stem: Seq<char>, language: Seq<char>) -> SidecarRank {
    if !is_subtitle_file(name) {
        SidecarRank::Unrelated
    } else {
        match file_stem(name) {
            None => SidecarRank::Unrelated,
            Some(own) => if own == stem {
                SidecarRank::Exact
            } else if starts_with(own, stem + "."@) {
                if lowered(own.skip(stem.len() + 1int)) == lowered(language) {
                    SidecarRank::Preferred
                } else {
                    SidecarRank::OtherLanguage
                }
            } else {
                SidecarRank::Unrelated
            },
        }
    }
}

/// The last file of a rank.
pub open spec fn last_of(
    files: Seq<Seq<char>>,
    stem: Seq<char>,
    language: Seq<char>,
    wanted: SidecarRank,
) -> Option<int>
    decreases files.len(),
{
    if files.len() == 0 {
        None
    } else if rank(files.last(), stem, language) == wanted {
        Some(files.len() - 1)
    } else {
        last_of(files.drop_last(), stem, language, wanted)
    }
}

/// The first file of a rank.
pub open spec fn first_of(
    files: Seq<Seq<char>>,
    stem: Seq<char>,
    language: Seq<char>,
    wanted: SidecarRank,
) -> Option<int>
    decreases files.len(),
{
    if files.len() == 0 {
        None
    } else {
        match first_of(files.drop_last(), stem, language, wanted) {
            Some(i) => Some(i),
            None => if rank(files.last(), stem, language) == wanted {
                Some(files.len() - 1)
            } else {
                None
            },
        }
    }
}

/// The subtitle file of a medium among the files beside it: one in the
/// preferred language, or else one with its name, or else the first one in
/// another language.
pub open spec fn best_sidecar(
    files: Seq<Seq<char>>,
    stem: Seq<char>,
    language: Seq<char>,
) -> Option<int> {
    match last_of(files, stem, language, SidecarRank::Preferred) {
        Some(i) => Some(i),
        None => match last_of(files, stem, language, SidecarRank::Exact) {
            Some(i) => Some(i),
            None => first_of(files, stem, language, SidecarRank::OtherLanguage),
        },
    }
}

/// How well a file suits a medium.
pub fn rank_file(name: &str, stem: &[char], language: &str) -> (r: SidecarRank)
    ensures
        r == rank(name@, stem@, language@),
{
    let path = to_chars(name);
    let known: bool = match extension_of(&path) {
        Some(e) => {
            let l = lowercase(e);
            same_str("srt", &l) || same_str("ass", &l) || same_str("ssa", &l) || same_str(
                "vtt",
                &l,
            )
        },
        None => false,
    };
    if !known {
        return SidecarRank::Unrelated;
    }
    match file_stem_of(&path) {
        None => SidecarRank::Unrelated,
        Some(own) => {
            if same(own, stem) {
                return SidecarRank::Exact;
            }
            let mut prefix: Vec<char> = Vec::new();
            crate::text::push_all(&mut prefix, stem);
            crate::text::push_text(&mut prefix, ".");
            proof {
                reveal_strlit(".");
            }
            assert(prefix@.len() == stem@.len() + 1);
            if is_match_at(own, &prefix, 0) {
                let n: usize = own.len();
                let lang = part(own, prefix.len(), n);
                assert(lang@ == own@.skip(stem@.len() + 1int));
                let wanted = to_chars(language);
                let a = lowercase(lang);
                let b = lowercase(&wanted);
                if same(&a, &b) {
                    SidecarRank::Preferred
                } else {
                    SidecarRank::OtherLanguage
                }
            } else {
                SidecarRank::Unrelated
            }
        },
    }
}

/// The subtitle file of a medium: its place among the names of the files beside it.
/// A medium that is no local file has none.
pub fn find_sidecar_subtitle(
    source: &str,
    is_file: bool,
    files: &Vec<String>,
    prefer_lang: &str,
) -> (r: Option<usize>)
    ensures
        match r {
            Some(i) => is_file && (file_stem(source@) matches Some(stem) && best_sidecar(
                names(files@),
                stem,
                prefer_lang@,
            ) == Some(i as int)) && i < files@.len(),
            None => !is_file || file_stem(source@) is None || best_sidecar(
                names(files@),
                file_stem(source@)->0,
                prefer_lang@,
            ) is None,
        },
{
    if !is_file {
        return None;
    }
    let path = to_chars(source);
    let stem = match file_stem_of(&path) {
        Some(s) => s,
        None => return None,
    };
    let ghost all = names(files@);
    let ghost lang = prefer_lang@;
    let mut exact: Option<usize> = None;
    let mut preferred: Option<usize> = None;
    let mut other: Option<usize> = None;
    let mut i: usize = 0;
    while i < files.len()
        invariant
            i <= files@.len(),
            all == names(files@),
            lang == prefer_lang@,
            match exact {
                Some(k) => last_of(all.take(i as int), stem@, lang, SidecarRank::Exact) == Some(
                    k as int,
                ) && k < i,
                None => last_of(all.take(i as int), stem@, lang, SidecarRank::Exact) is None,
            },
            match preferred {
                Some(k) => last_of(all.take(i as int), stem@, lang, SidecarRank::Preferred)
                    == Some(k as int) && k < i,
                None => last_of(all.take(i as int), stem@, lang, SidecarRank::Preferred) is None,
            },
            match other {
                Some(k) => first_of(all.take(i as int), stem@, lang, SidecarRank::OtherLanguage)
                    == Some(k as int) && k < i,
                None => first_of(all.take(i as int), stem@, lang, SidecarRank::OtherLanguage)
                    is None,
            },
        decreases files@.len() - i,
    {
        assert(all.take(i + 1).drop_last() == all.take(i as int));
        assert(all.take(i + 1).last() == files@[i as int]@);
        match rank_file(files[i].as_str(), stem, prefer_lang) {
            SidecarRank::Unrelated => {},
            SidecarRank::Exact => {
                exact = Some(i);
            },
            SidecarRank::Preferred => {
                preferred = Some(i);
            },
            SidecarRank::OtherLanguage => {
                if other.is_none() {
                    other = Some(i);
                }
            },
        }
        i = i + 1;
    }
    assert(all.take(files@.len() as int) == all);
    if preferred.is_some() {
        preferred
    } else if exact.is_some() {
        exact
    } else {
        other
    }
}

// ---- Downloaded subtitles --------------------------------------------------

/// The cues of a text whose format is not known: SRT, or else ASS, or else
/// WebVTT.
pub open spec fn guessed_cues(content: Seq<char>) -> Seq<Cue> {
    if srt_cues(content).len() > 0 {
        srt_cues(content)
    } else if ass_cues(content).len() > 0 {
        ass_cues(content)
    } else {
        vtt_cues(content)
    }
}

/// The track of a text whose format is not known; none where it has no cue.
pub fn parse_subtitle_content(content: &str) -> (r: Option<SubtitleTrack>)
    ensures
        r matches Some(track) ==> guessed_cues(content@).len() > 0 && track@ == in_order(
            guessed_cues(content@),
        ) && is_sorted(track@),
        r is None ==> guessed_cues(content@).len() == 0,
{
    if let Ok(list) = parse_srt(content) {
        assert(cues(list@).len() == list@.len());
        if list.len() > 0 {
            return Some(SubtitleTrack::new(list));
        }
    }
    if let Ok(list) = parse_ass(content) {
        assert(cues(list@).len() == list@.len());
        if list.len() > 0 {
            return Some(SubtitleTrack::new(list));
        }
    }
    if let Ok(list) = parse_vtt(content) {
        assert(cues(list@).len() == list@.len());
        if list.len() > 0 {
            return Some(SubtitleTrack::new(list));
        }
    }
    None
}

/// How much a rank is worth.
pub open spec fn worth(r: SidecarRank) -> int {
    match r {
        SidecarRank::Preferred => 3,
        SidecarRank::Exact => 2,
        SidecarRank::OtherLanguage => 1,
        _ => 0,
    }
}

/// No file suits a medium better than the one that is chosen, and one is chosen
/// as soon as any suits it.
pub proof fn law_no_sidecar_is_better(
    files: Seq<Seq<char>>,
    stem: Seq<char>,
    language: Seq<char>,
    i: int,
)
    requires
        0 <= i < files.len(),
    ensures
        worth(rank(files[i], stem, language)) > 0 ==> best_sidecar(files, stem, language) is Some,
        best_sidecar(files, stem, language) matches Some(best) ==> 0 <= best < files.len()
            && worth(rank(files[best], stem, language)) > 0 && worth(
            rank(files[i], stem, language),
        ) <= worth(rank(files[best], stem, language)),
{
    lemma_last_of(files, stem, language, SidecarRank::Preferred);
    lemma_last_of(files, stem, language, SidecarRank::Exact);
    lemma_first_of(files, stem, language, SidecarRank::OtherLanguage);
}

proof fn lemma_last_of(
    files: Seq<Seq<char>>,
    stem: Seq<char>,
    language: Seq<char>,
    wanted: SidecarRank,
)
    ensures
        match last_of(files, stem, language, wanted) {
            Some(k) => 0 <= k < files.len() && rank(files[k], stem, language) == wanted,
            None => forall|i: int|
                0 <= i < files.len() ==> rank(#[trigger] files[i], stem, language) != wanted,
        },
    decreases files.len(),
{
    if files.len() > 0 {
        let less = files.drop_last();
        lemma_last_of(less, stem, language, wanted);
        assert(forall|i: int| 0 <= i < less.len() ==> less[i] == #[trigger] files[i]);
    }
}

proof fn lemma_first_of(
    files: Seq<Seq<char>>,
    stem: Seq<char>,
    language: Seq<char>,
    wanted: SidecarRank,
)
    ensures
        match first_of(files, stem, language, wanted) {
            Some(k) => 0 <= k < files.len() && rank(files[k], stem, language) == wanted,
            None => forall|i: int|
                0 <= i < files.len() ==> rank(#[trigger] files[i], stem, language) != wanted,
        },
    decreases files.len(),
{
    if files.len() > 0 {
        let less = files.drop_last();
        lemma_first_of(less, stem, language, wanted);
        assert(forall|i: int| 0 <= i < less.len() ==> less[i] == #[trigger] files[i]);
    }
}

// ---- Laws ------------------------------------------------------------------

/// A subtitle file suits a medium by its name: the medium's own, or the medium's with
/// a language behind it, in whatever case, and the extension of a subtitle format.
pub proof fn law_names_tell_the_sidecar(
    stem: Seq<char>,
    word: Seq<char>,
    ext: Seq<char>,
    language: Seq<char>,
)
    requires
        stem.len() > 0 && !stem.contains('/'),
        !word.contains('/'),
        !ext.contains('.') && !ext.contains('/'),
        ext.len() > 0,
        lowered(ext) == "srt"@ || lowered(ext) == "ass"@ || lowered(ext) == "ssa"@ || lowered(ext)
            == "vtt"@,
    ensures
        rank(stem + seq!['.'] + ext, stem, language) == SidecarRank::Exact,
        rank(stem + seq!['.'] + word + seq!['.'] + ext, stem, language) == (if lowered(word)
            == lowered(language) {
            SidecarRank::Preferred
        } else {
            SidecarRank::OtherLanguage
        }),
{
    reveal_strlit(".");
    let none = Seq::<char>::empty();
    let name = stem + seq!['.'] + ext;
    let own = stem + seq!['.'] + word;
    let other = own + seq!['.'] + ext;
    lemma_is_name(stem, ext);
    lemma_is_name(own, ext);
    law_stem_and_extension(none, stem, ext);
    law_stem_and_extension(none, own, ext);
    assert(own.subrange(0, stem.len() + 1int) == stem + "."@);
    assert(own.skip(stem.len() + 1int) == word);
    assert(own != stem) by {
        assert(own.len() > stem.len());
    }
}

/// Two parts around a point are a name where the second is not empty.
proof fn lemma_is_name(a: Seq<char>, b: Seq<char>)
    requires
        a.len() > 0,
        b.len() > 0,
        !b.contains('/') && !b.contains('.'),
        forall|i: int| 0 <= i < a.len() ==> #[trigger] a[i] != '/',
    ensures
        is_name(a + seq!['.'] + b),
{
    let s = a + seq!['.'] + b;
    if s.contains('/') {
        let k = choose|k: int| 0 <= k < s.len() && s[k] == '/';
        if k < a.len() {
            assert(s[k] == a[k]);
        } else if k > a.len() {
            assert(b.contains(b[k - a.len() - 1]));
        }
    }
    assert(s.len() > 2);
}

/// Another file is no subtitle of the medium: one without the extension of a subtitle
/// format, or one whose name does not begin like the medium's.
pub proof fn law_other_files_are_no_sidecars(name: Seq<char>, stem: Seq<char>, language: Seq<char>)
    ensures
        extension(name) is None ==> rank(name, stem, language) == SidecarRank::Unrelated,
        file_stem(name) matches Some(own) && !starts_with(own, stem) ==> rank(name, stem, language)
            == SidecarRank::Unrelated,
{
    reveal_strlit(".");
    if let Some(own) = file_stem(name) {
        if own == stem {
            assert(own.subrange(0, stem.len() as int) == stem);
        }
        if starts_with(own, stem + "."@) {
            let t = own.subrange(0, stem.len() + 1int);
            assert(own.subrange(0, stem.len() as int) == t.take(stem.len() as int));
            assert(t.take(stem.len() as int) == stem);
        }
    }
}

/// A text whose format is not known is read in the first one in which it has a cue, so it
/// has none only where it has none in any.
pub proof fn law_text_is_read_where_it_has_cues(content: Seq<char>)
    ensures
        guessed_cues(content).len() == 0 <==> srt_cues(content).len() == 0 && ass_cues(
            content,
        ).len() == 0 && vtt_cues(content).len() == 0,
        srt_cues(content).len() > 0 ==> guessed_cues(content) == srt_cues(content),
        srt_cues(content).len() == 0 && ass_cues(content).len() > 0 ==> guessed_cues(content)
            == ass_cues(content),
        srt_cues(content).len() == 0 && ass_cues(content).len() == 0 ==> guessed_cues(content)
            == vtt_cues(content),
{
}

} // verus!
