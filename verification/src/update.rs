//! Whether a newer version was released.

use crate::json::{
    Json, element, element_of, json_of, member, member_of, parse_json, seen, text_in, text_of,
};
use crate::number::{
    decimal, is_ascii_digit, is_digit, law_decimal_reads_back, parse_unsigned_digits, read_number,
};
use crate::text::{
    from_chars, is_space, lemma_run_is, lemma_trim_keeps, part, run, split, split_text, texts,
    to_chars, trim, trim_start_char, trimmed, trimmed_start_char,
};
use crate::text_facts::{lemma_char_is_absent, lemma_join_of_three, lemma_split_join};
use vstd::prelude::*;

verus! {

/// The version of the player.
pub const VERSION: &'static str = "0.1.0";

/// Where the releases are listed.
pub const RELEASES_URL: &'static str = "https://api.github.com/repos/micferna/oxiplay/releases?per_page=1";

/// A newer version.
#[derive(Debug)]
pub struct UpdateInfo {
    /// The version, such as `0.2.0`.
    pub version: String,
    /// The page of the release.
    pub url: String,
}

// ---- Versions --------------------------------------------------------------

/// The number at the head of a part of a version.
pub open spec fn leading(s: Seq<char>) -> Option<nat> {
    parse_unsigned_digits(s.take(run(s, |c: char| is_digit(c)) as int), u32::MAX as nat)
}

/// The number of part `i` of a version, zero where it has none.
pub open spec fn part_number(parts: Seq<Seq<char>>, i: int) -> nat {
    if i < parts.len() {
        match leading(parts[i]) {
            Some(n) => n,
            None => 0,
        }
    } else {
        0
    }
}

/// The three numbers of a version.
pub open spec fn version_of(s: Seq<char>) -> Option<(nat, nat, nat)> {
    let parts = split(trim_start_char(trim(s), 'v'), seq!['.']);
    match leading(parts[0]) {
        Some(major) => Some((major, part_number(parts, 1), part_number(parts, 2))),
        None => None,
    }
}

/// Whether version `a` is newer than version `b`.
pub open spec fn is_newer(a: (nat, nat, nat), b: (nat, nat, nat)) -> bool {
    ||| a.0 > b.0
    ||| a.0 == b.0 && a.1 > b.1
    ||| a.0 == b.0 && a.1 == b.1 && a.2 > b.2
}

/// The number at the head of a part of a version (`0-dev.1` gives 0).
fn leading_number(s: &[char]) -> (r: Option<u32>)
    ensures
        r matches Some(n) ==> leading(s@) == Some(n as nat),
        r is None ==> leading(s@) is None,
{
    let mut k: usize = 0;
    while k < s.len() && is_ascii_digit(s[k])
        invariant
            k <= s@.len(),
            forall|i: int| 0 <= i < k ==> is_digit(#[trigger] s@[i]),
        decreases s@.len() - k,
    {
        k = k + 1;
    }
    proof {
        lemma_run_is(s@, |c: char| is_digit(c), k as nat);
    }
    let digits = part(s, 0, k);
    assert(digits@ == s@.take(k as int));
    match read_number(digits, 10, 0xffff_ffff) {
        Some(n) => Some(n as u32),
        None => None,
    }
}

/// The three numbers of a version. A `v` before them and what follows each
/// number are ignored.
pub fn parse_version(s: &str) -> (r: Option<(u32, u32, u32)>)
    ensures
        r matches Some(v) ==> version_of(s@) == Some((v.0 as nat, v.1 as nat, v.2 as nat)),
        r is None ==> version_of(s@) is None,
{
    let chars = to_chars(s);
    let dot: Vec<char> = vec!['.'];
    assert(dot@ == seq!['.']);
    let parts = split_text(trimmed_start_char(trimmed(&chars), 'v'), &dot);
    let ghost all = texts(parts@);
    assert(all.len() == parts@.len());
    assert(forall|i: int| 0 <= i < parts@.len() ==> parts@[i]@ == all[i]);
    let major: u32 = match leading_number(parts[0]) {
        Some(n) => n,
        None => return None,
    };
    let minor: u32 = if parts.len() > 1 {
        match leading_number(parts[1]) {
            Some(n) => n,
            None => 0,
        }
    } else {
        0
    };
    let patch: u32 = if parts.len() > 2 {
        match leading_number(parts[2]) {
            Some(n) => n,
            None => 0,
        }
    } else {
        0
    };
    Some((major, minor, patch))
}

/// Whether version `a` is newer than version `b`.
fn newer(a: (u32, u32, u32), b: (u32, u32, u32)) -> (r: bool)
    ensures
        r == is_newer(
            (a.0 as nat, a.1 as nat, a.2 as nat),
            (b.0 as nat, b.1 as nat, b.2 as nat),
        ),
{
    a.0 > b.0 || (a.0 == b.0 && (a.1 > b.1 || (a.1 == b.1 && a.2 > b.2)))
}

// ---- Releases --------------------------------------------------------------

/// The tag of the latest release.
pub open spec fn latest_tag(v: Option<Json>) -> Option<Seq<char>> {
    text_of(member(element(v, 0), "tag_name"@))
}

/// The page of the latest release, nothing where it has none.
pub open spec fn latest_url(v: Option<Json>) -> Seq<char> {
    match text_of(member(element(v, 0), "html_url"@)) {
        Some(url) => url,
        None => seq![],
    }
}

/// Whether the latest release is newer than `current`.
pub open spec fn has_update(v: Option<Json>, current: Seq<char>) -> bool {
    latest_tag(v) matches Some(tag) && version_of(tag) matches Some(a) && version_of(current)
        matches Some(b) && is_newer(a, b)
}

/// The update that a list of releases, which was read as a document, offers to
/// version `current`.
pub fn update_in(v: Option<&serde_json::Value>, current: &str) -> (r: Option<UpdateInfo>)
    ensures
        r is Some <==> has_update(seen(v), current@),
        r matches Some(info) ==> info.version@ == trim_start_char(latest_tag(seen(v))->0, 'v')
            && info.url@ == latest_url(seen(v)),
{
    let latest = element_of(v, 0);
    let tag = match text_in(member_of(latest, "tag_name")) {
        Some(t) => t,
        None => return None,
    };
    let url = match text_in(member_of(latest, "html_url")) {
        Some(u) => u.to_owned(),
        None => String::new(),
    };
    assert(url@ =~= latest_url(seen(v)));
    let a = match parse_version(tag) {
        Some(v) => v,
        None => return None,
    };
    let b = match parse_version(current) {
        Some(v) => v,
        None => return None,
    };
    if newer(a, b) {
        let chars = to_chars(tag);
        Some(UpdateInfo { version: from_chars(trimmed_start_char(&chars, 'v')), url })
    } else {
        None
    }
}

/// The update that the list of releases offers to version `current`, where the
/// latest one is newer.
pub fn check_latest(body: &str, current: &str) -> (r: Option<UpdateInfo>)
    ensures
        r is Some <==> has_update(json_of(body@), current@),
        r matches Some(info) ==> info.version@ == trim_start_char(
            latest_tag(json_of(body@))->0,
            'v',
        ) && info.url@ == latest_url(json_of(body@)),
{
    let v = parse_json(body);
    update_in(v.as_ref(), current)
}

/// No version is newer than itself, of two versions at most one is newer, and
/// newer than newer is newer.
pub proof fn law_newer_is_an_order(
    a: (nat, nat, nat),
    b: (nat, nat, nat),
    c: (nat, nat, nat),
)
    ensures
        !is_newer(a, a),
        a == b || is_newer(a, b) || is_newer(b, a),
        !(is_newer(a, b) && is_newer(b, a)),
        is_newer(a, b) && is_newer(b, c) ==> is_newer(a, c),
{
}

// ---- Laws ------------------------------------------------------------------

/// A version counts by its first number, then by its second, then by its third.
pub proof fn law_newer_goes_by_the_first_difference(
    a: (nat, nat, nat),
    k: nat,
    x: nat,
    y: nat,
)
    requires
        k > 0,
    ensures
        is_newer((a.0 + k, x, y), a) && !is_newer(a, (a.0 + k, x, y)),
        is_newer((a.0, a.1 + k, y), a) && !is_newer(a, (a.0, a.1 + k, y)),
        is_newer((a.0, a.1, a.2 + k), a) && !is_newer(a, (a.0, a.1, a.2 + k)),
{
}

proof fn lemma_leading(n: nat, rest: Seq<char>)
    requires
        n <= u32::MAX,
        rest.len() > 0 ==> !is_digit(rest[0]),
    ensures
        leading(decimal(n) + rest) == Some(n),
{
    let d = decimal(n);
    let s = d + rest;
    let f = |c: char| is_digit(c);
    law_decimal_reads_back(n);
    assert forall|i: int| 0 <= i < d.len() implies f(#[trigger] s[i]) by {
        assert(is_digit(d[i]));
    }
    if d.len() < s.len() {
        assert(s[d.len() as int] == rest[0]);
    }
    lemma_run_is(s, f, d.len());
    assert(s.take(d.len() as int) == d);
}

/// Digits hold no point, no white space and no letter.
proof fn lemma_digits_alone(n: nat)
    ensures
        forall|c: char| !is_digit(c) ==> !(#[trigger] decimal(n).contains(c)),
        is_digit(decimal(n)[0]) && is_digit(decimal(n).last()),
{
    law_decimal_reads_back(n);
    let d = decimal(n);
    assert(is_digit(d[0]) && is_digit(d[d.len() - 1]));
    assert forall|c: char| !is_digit(c) implies !(#[trigger] d.contains(c)) by {
        if d.contains(c) {
            let k = choose|k: int| 0 <= k < d.len() && d[k] == c;
            assert(is_digit(d[k]));
        }
    }
}

/// A version that is written as three numbers with points between them is read as
/// them, whether a `v` stands before it or not, and whatever word is tied to its
/// last number.
pub proof fn law_version_is_read(a: nat, b: nat, c: nat, word: Seq<char>)
    requires
        a <= u32::MAX,
        b <= u32::MAX,
        c <= u32::MAX,
        !word.contains('.'),
        word.len() > 0 ==> word[0] == '-' && !is_space(word.last()),
    ensures
        ({
            let text = decimal(a) + seq!['.'] + decimal(b) + seq!['.'] + (decimal(c) + word);
            &&& version_of(text) == Some((a, b, c))
            &&& version_of(seq!['v'] + text) == Some((a, b, c))
        }),
        version_of(decimal(a)) == Some((a, 0nat, 0nat)),
        version_of(seq!['v'] + decimal(a)) == Some((a, 0nat, 0nat)),
{
    let last = decimal(c) + word;
    let text = decimal(a) + seq!['.'] + decimal(b) + seq!['.'] + last;
    lemma_digits_alone(a);
    lemma_digits_alone(b);
    lemma_digits_alone(c);
    let none = Seq::<char>::empty();
    lemma_leading(a, none);
    lemma_leading(b, none);
    lemma_leading(c, word);
    assert(decimal(a) + none == decimal(a) && decimal(b) + none == decimal(b));
    assert(!last.contains('.')) by {
        if last.contains('.') {
            let k = choose|k: int| 0 <= k < last.len() && last[k] == '.';
            let n = decimal(c).len() as int;
            if k < n {
                assert(decimal(c).contains(decimal(c)[k]));
            } else {
                assert(word.contains(word[k - n]));
            }
        }
    }
    lemma_join_of_three(decimal(a), decimal(b), last, seq!['.']);
    lemma_split_join(seq![decimal(a), decimal(b), last], '.');
    lemma_char_is_absent(decimal(a), '.');
    assert(text[0] == decimal(a)[0]);
    assert(text.last() == (if word.len() > 0 {
        word.last()
    } else {
        decimal(c).last()
    }));
    lemma_v_goes(text);
    lemma_v_goes(decimal(a));
}

/// A `v` before a number does not count.
proof fn lemma_v_goes(text: Seq<char>)
    requires
        text.len() > 0,
        is_digit(text[0]),
        !is_space(text.last()),
    ensures
        trim_start_char(trim(text), 'v') == text,
        trim_start_char(trim(seq!['v'] + text), 'v') == text,
{
    let with = seq!['v'] + text;
    lemma_trim_keeps(text);
    assert(with.last() == text.last());
    lemma_trim_keeps(with);
    assert(with.drop_first() == text);
    reveal_with_fuel(trim_start_char, 2);
}

/// The latest release is the first of the list, named by its tag.
pub proof fn law_latest_release_is_the_first(
    release: Map<Seq<char>, Json>,
    rest: Seq<Json>,
    tag: Seq<char>,
    page: Seq<char>,
    a: (nat, nat, nat),
    b: (nat, nat, nat),
    current: Seq<char>,
)
    requires
        release.dom().contains("tag_name"@),
        release["tag_name"@] == Json::Text(tag),
        release.dom().contains("html_url"@),
        release["html_url"@] == Json::Text(page),
        version_of(tag) == Some(a),
        version_of(current) == Some(b),
    ensures
        ({
            let list = Some(Json::Array(seq![Json::Object(release)] + rest));
            &&& latest_tag(list) == Some(tag)
            &&& latest_url(list) == page
            &&& has_update(list, current) <==> is_newer(a, b)
        }),
        latest_tag(Some(Json::Array(seq![]))) is None,
        !has_update(None, current),
{
    let list = seq![Json::Object(release)] + rest;
    assert(list[0] == Json::Object(release));
}

} // verus!
