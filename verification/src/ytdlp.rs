//! Web pages that an external tool turns into the URL of a stream.

use crate::streaming::{
    before_query, ends_with_any, has_any_suffix, law_query_is_cut_off, strs, without_query,
};
use crate::text::{
    ascii_lower, contains, ends_with, from_chars, has_prefix, is_blank, lines, lines_of, lowercase,
    lowered, matches_at, starts_with, texts, to_chars, trim, trimmed,
};
use vstd::prelude::*;

verus! {

/// The extensions of media and playlists that are played as they are.
pub open spec fn direct_extensions() -> Seq<Seq<char>> {
    seq![
        ".mp4"@, ".mkv"@, ".webm"@, ".avi"@, ".mov"@, ".flv"@, ".ts"@, ".m2ts"@, ".wmv"@, ".mp3"@,
        ".flac"@, ".aac"@, ".m4a"@, ".ogg"@, ".oga"@, ".opus"@, ".wav"@, ".wma"@, ".m3u8"@, ".mpd"@,
    ]
}

/// Whether a URL is a web page rather than a medium.
pub open spec fn is_page(url: Seq<char>) -> bool {
    let l = lowered(url);
    &&& starts_with(l, "http://"@) || starts_with(l, "https://"@)
    &&& !ends_with_any(before_query(l), direct_extensions())
}

/// Whether a URL is a web page, which has to be resolved, rather than a medium
/// or a playlist, which is played as it is.
pub fn should_resolve(url: &str) -> (r: bool)
    ensures
        r == is_page(url@),
{
    let s = to_chars(url);
    let l = lowercase(&s);
    if !(has_prefix(&l, "http://") || has_prefix(&l, "https://")) {
        return false;
    }
    let known: Vec<&str> = vec![
        ".mp4", ".mkv", ".webm", ".avi", ".mov", ".flv", ".ts", ".m2ts", ".wmv", ".mp3",
        ".flac", ".aac", ".m4a", ".ogg", ".oga", ".opus", ".wav", ".wma", ".m3u8", ".mpd",
    ];
    assert(strs(known@) == direct_extensions());
    !has_any_suffix(without_query(&l), &known)
}

/// The first line that is not blank, without the white space around it.
pub open spec fn first_filled(ls: Seq<Seq<char>>) -> Option<Seq<char>>
    decreases ls.len(),
{
    if ls.len() == 0 {
        None
    } else if trim(ls[0]).len() > 0 {
        Some(trim(ls[0]))
    } else {
        first_filled(ls.skip(1))
    }
}

/// The stream's URL in what the tool printed, where it succeeded.
pub open spec fn printed_url(success: bool, stdout: Seq<char>) -> Option<Seq<char>> {
    if success {
        first_filled(lines(stdout))
    } else {
        None
    }
}

/// The arguments with which the tool prints the URL of a single stream.
pub fn resolve_arguments(url: &str) -> (r: Vec<String>)
    ensures
        r@.len() == 5,
        r@[0]@ == "-g"@,
        r@[1]@ == "--no-playlist"@,
        r@[2]@ == "-f"@,
        r@[3]@ == "best"@,
        r@[4]@ == url@,
{
    vec![
        "-g".to_owned(),
        "--no-playlist".to_owned(),
        "-f".to_owned(),
        "best".to_owned(),
        url.to_owned(),
    ]
}

/// The stream's URL in what the tool printed: nothing where it failed or
/// printed nothing.
pub fn resolve(success: bool, stdout: &str) -> (r: Option<String>)
    ensures
        r matches Some(url) ==> printed_url(success, stdout@) == Some(url@),
        r is None ==> printed_url(success, stdout@) is None,
{
    if !success {
        return None;
    }
    let s = to_chars(stdout);
    let ls = lines_of(&s);
    let ghost all = texts(ls@);
    let mut i: usize = 0;
    assert(all.skip(0) == all);
    while i < ls.len()
        invariant
            i <= ls@.len(),
            all == texts(ls@),
            success,
            all == lines(stdout@),
            first_filled(all) == first_filled(all.skip(i as int)),
        decreases ls@.len() - i,
    {
        assert(all.skip(i as int).skip(1) == all.skip(i + 1));
        assert(all.skip(i as int)[0] == ls@[i as int]@);
        if !is_blank(ls[i]) {
            return Some(from_chars(trimmed(ls[i])));
        }
        i = i + 1;
    }
    None
}

// ---- Laws ------------------------------------------------------------------

/// A web page is reached over HTTP, and its address names no medium; what stands
/// behind the address makes no difference.
pub proof fn law_media_are_no_pages(address: Seq<char>, mark: char, rest: Seq<char>)
    requires
        !address.contains('?'),
        !address.contains('#'),
        mark == '?' || mark == '#',
        starts_with(lowered(address), "http://"@) || starts_with(lowered(address), "https://"@),
    ensures
        is_page(address + seq![mark] + rest) == is_page(address),
        ends_with(lowered(address), ".mp4"@) || ends_with(lowered(address), ".mkv"@) || ends_with(
            lowered(address),
            ".mp3"@,
        ) || ends_with(lowered(address), ".m3u8"@) ==> !is_page(address),
        address.last() == '/' || !contains(lowered(address), "."@) ==> is_page(address),
{
    reveal_strlit("http://");
    reveal_strlit("https://");
    let whole = address + seq![mark] + rest;
    let l = lowered(address);
    assert(lowered(whole) == l + seq![mark] + lowered(rest));
    assert forall|c: char| c == '?' || c == '#' implies !#[trigger] l.contains(c) by {
        if l.contains(c) {
            let k = choose|k: int| 0 <= k < l.len() && l[k] == c;
            assert(address[k] == c);
            assert(address.contains(address[k]));
        }
    }
    law_query_is_cut_off(l, mark, lowered(rest));
    if starts_with(l, "http://"@) {
        assert(lowered(whole).subrange(0, 7) == l.subrange(0, 7));
    } else {
        assert(lowered(whole).subrange(0, 8) == l.subrange(0, 8));
    }
    let known = direct_extensions();
    assert(known[0] == ".mp4"@ && known[1] == ".mkv"@ && known[9] == ".mp3"@ && known[18]
        == ".m3u8"@);
    assert(l.last() == ascii_lower(address.last()));
    if ends_with_any(l, known) {
        let i = choose|i: int| 0 <= i < known.len() && ends_with(l, #[trigger] known[i]);
        lemma_extensions(i);
        let n = l.len() - known[i].len();
        let t = l.subrange(n, l.len() as int);
        assert(t.last() == l.last());
        assert(t[0] == l[n]);
        reveal_strlit(".");
        assert(l.subrange(n, n + 1) == "."@);
        assert(matches_at(l, "."@, n));
    }
}

/// The extensions all begin with a point and end with a letter or a digit.
proof fn lemma_extensions(i: int)
    requires
        0 <= i < direct_extensions().len(),
    ensures
        direct_extensions()[i].len() > 1,
        direct_extensions()[i][0] == '.',
        direct_extensions()[i].last() != '/',
{
    reveal_strlit(".mp4");
    reveal_strlit(".mkv");
    reveal_strlit(".webm");
    reveal_strlit(".avi");
    reveal_strlit(".mov");
    reveal_strlit(".flv");
    reveal_strlit(".ts");
    reveal_strlit(".m2ts");
    reveal_strlit(".wmv");
    reveal_strlit(".mp3");
    reveal_strlit(".flac");
    reveal_strlit(".aac");
    reveal_strlit(".m4a");
    reveal_strlit(".ogg");
    reveal_strlit(".oga");
    reveal_strlit(".opus");
    reveal_strlit(".wav");
    reveal_strlit(".wma");
    reveal_strlit(".m3u8");
    reveal_strlit(".mpd");
}

/// The address is the first line with something on it, without the white space
/// around it; a tool that failed has printed none.
pub proof fn law_first_line_that_says_something(ls: Seq<Seq<char>>, i: int)
    requires
        0 <= i < ls.len(),
        trim(ls[i]).len() > 0,
        forall|k: int| 0 <= k < i ==> trim(#[trigger] ls[k]).len() == 0,
    ensures
        first_filled(ls) == Some(trim(ls[i])),
    decreases i,
{
    if i > 0 {
        assert(trim(ls[0]).len() == 0);
        let rest = ls.skip(1);
        assert forall|k: int| 0 <= k < i - 1 implies trim(#[trigger] rest[k]).len() == 0 by {
            assert(rest[k] == ls[k + 1]);
        }
        law_first_line_that_says_something(rest, i - 1);
    }
}

/// A tool that failed has printed no address, and one that succeeded has printed the one
/// on the first line that says something.
pub proof fn law_printed_address(stdout: Seq<char>, i: int)
    requires
        0 <= i < lines(stdout).len(),
        trim(lines(stdout)[i]).len() > 0,
        forall|k: int| 0 <= k < i ==> trim(#[trigger] lines(stdout)[k]).len() == 0,
    ensures
        printed_url(false, stdout) is None,
        printed_url(true, stdout) == Some(trim(lines(stdout)[i])),
{
    law_first_line_that_says_something(lines(stdout), i);
}

} // verus!
