//! Network sources: telling them apart, and the options to open them with.

use crate::text::{
    contains, ends_with, find, from_chars, has_prefix, has_suffix, has_text, join, lemma_find,
    lemma_find_is, lemma_run_is, lowercase, lowered, matches_at, part, push_text, run, same_str,
    split, starts_with, to_chars,
};
use vstd::prelude::*;

verus! {

/// The version that the player announces to servers.
pub const USER_AGENT: &'static str = "oxiplay/0.1.0";

/// The kinds of sources.
#[derive(Debug, Clone, Copy, PartialEq, Eq, Structural)]
pub enum StreamKind {
    /// A local file.
    Local,
    /// A remote file over HTTP or HTTPS.
    Http,
    /// An HLS playlist (`.m3u8`).
    Hls,
    /// An RTSP stream.
    Rtsp,
    /// An IPTV stream (UDP or RTP multicast, or a remote M3U list).
    Iptv,
    /// A Blu-ray disc, BDMV directory or `.iso` image.
    BluRay,
}

// ---- Classification --------------------------------------------------------

/// Whether `s` begins with the scheme of a network protocol, in any case.
pub open spec fn is_url_text(s: Seq<char>) -> bool {
    let l = lowered(s);
    ||| starts_with(l, "http://"@)
    ||| starts_with(l, "https://"@)
    ||| starts_with(l, "rtsp://"@)
    ||| starts_with(l, "rtmp://"@)
    ||| starts_with(l, "udp://"@)
    ||| starts_with(l, "rtp://"@)
    ||| starts_with(l, "mms://"@)
}

/// The kind of a source.
pub open spec fn kind_of(s: Seq<char>) -> StreamKind {
    let l = lowered(s);
    if starts_with(l, "bluray:"@) {
        StreamKind::BluRay
    } else if !is_url_text(s) {
        StreamKind::Local
    } else if starts_with(l, "rtsp://"@) {
        StreamKind::Rtsp
    } else if starts_with(l, "udp://"@) || starts_with(l, "rtp://"@) {
        StreamKind::Iptv
    } else if contains(l, ".m3u8"@) {
        StreamKind::Hls
    } else if ends_with(l, ".m3u"@) {
        StreamKind::Iptv
    } else {
        StreamKind::Http
    }
}

/// Whether characters hold a URL rather than a local path.
pub fn is_url_chars(s: &[char]) -> (r: bool)
    ensures
        r == is_url_text(s@),
{
    let l = lowercase(s);
    has_prefix(&l, "http://") || has_prefix(&l, "https://") || has_prefix(&l, "rtsp://")
        || has_prefix(&l, "rtmp://") || has_prefix(&l, "udp://") || has_prefix(&l, "rtp://")
        || has_prefix(&l, "mms://")
}

/// Whether the text is a URL rather than a local path.
pub fn is_url(input: &str) -> (r: bool)
    ensures
        r == is_url_text(input@),
{
    let s = to_chars(input);
    is_url_chars(&s)
}

/// The kind of a source: a local path, a URL or a Blu-ray disc.
pub fn classify(input: &str) -> (kind: StreamKind)
    ensures
        kind == kind_of(input@),
{
    let s = to_chars(input);
    let l = lowercase(&s);
    if has_prefix(&l, "bluray:") {
        StreamKind::BluRay
    } else if !is_url_chars(&s) {
        StreamKind::Local
    } else if has_prefix(&l, "rtsp://") {
        StreamKind::Rtsp
    } else if has_prefix(&l, "udp://") || has_prefix(&l, "rtp://") {
        StreamKind::Iptv
    } else if has_text(&l, ".m3u8") {
        StreamKind::Hls
    } else if has_suffix(&l, ".m3u") {
        StreamKind::Iptv
    } else {
        StreamKind::Http
    }
}

/// The source as the demuxer opens it: disc images and BDMV directories go
/// through the `bluray:` protocol, everything else is kept.
pub open spec fn normalized(input: Seq<char>, is_bdmv_dir: bool) -> Seq<char> {
    if starts_with(input, "bluray:"@) || is_url_text(input) {
        input
    } else if ends_with(lowered(input), ".iso"@) || is_bdmv_dir {
        "bluray:"@ + input
    } else {
        input
    }
}

/// The source as the demuxer opens it. `is_bdmv_dir` says whether it is a
/// directory that holds a `BDMV` directory.
pub fn normalize_source(input: &str, is_bdmv_dir: bool) -> (r: String)
    ensures
        r@ == normalized(input@, is_bdmv_dir),
{
    let s = to_chars(input);
    if has_prefix(&s, "bluray:") || is_url_chars(&s) {
        return input.to_owned();
    }
    let l = lowercase(&s);
    if has_suffix(&l, ".iso") || is_bdmv_dir {
        let mut out = to_chars("bluray:");
        push_text(&mut out, input);
        from_chars(&out)
    } else {
        input.to_owned()
    }
}

/// What stands in a URL before its query and its fragment.
pub open spec fn before_query(s: Seq<char>) -> Seq<char> {
    s.take(run(s, |c: char| c != '?' && c != '#') as int)
}

/// What stands in a URL before its query and its fragment.
pub fn without_query<'a>(s: &'a [char]) -> (r: &'a [char])
    ensures
        r@ == before_query(s@),
{
    let mut k: usize = 0;
    while k < s.len() && s[k] != '?' && s[k] != '#'
        invariant
            k <= s@.len(),
            forall|i: int| 0 <= i < k ==> #[trigger] s@[i] != '?' && s@[i] != '#',
        decreases s@.len() - k,
    {
        k = k + 1;
    }
    proof {
        lemma_run_is(s@, |c: char| c != '?' && c != '#', k as nat);
    }
    let r = part(s, 0, k);
    assert(r@ == s@.take(k as int));
    r
}

/// The texts of a list of strings.
pub open spec fn strs(v: Seq<&str>) -> Seq<Seq<char>> {
    Seq::new(v.len(), |i: int| v[i]@)
}

/// Whether `s` ends with one of the texts.
pub open spec fn ends_with_any(s: Seq<char>, ends: Seq<Seq<char>>) -> bool {
    exists|i: int| 0 <= i < ends.len() && ends_with(s, #[trigger] ends[i])
}

/// Whether `s` ends with one of the texts.
pub fn has_any_suffix(s: &[char], ends: &Vec<&str>) -> (r: bool)
    ensures
        r == ends_with_any(s@, strs(ends@)),
{
    let mut i: usize = 0;
    while i < ends.len()
        invariant
            i <= ends@.len(),
            forall|k: int| 0 <= k < i ==> !ends_with(s@, #[trigger] strs(ends@)[k]),
        decreases ends@.len() - i,
    {
        assert(strs(ends@)[i as int] == ends@[i as int]@);
        if has_suffix(s, ends[i]) {
            return true;
        }
        i = i + 1;
    }
    false
}

/// Whether a playlist is an HLS manifest, which bears tags that a directory of
/// channels does not have.
pub open spec fn is_hls_text(content: Seq<char>) -> bool {
    ||| contains(content, "#EXT-X-STREAM-INF"@)
    ||| contains(content, "#EXT-X-TARGETDURATION"@)
    ||| contains(content, "#EXT-X-MEDIA-SEQUENCE"@)
}

/// Whether a playlist is a stream to play as it is (an HLS manifest) rather
/// than a directory of channels.
pub fn looks_like_hls(content: &str) -> (r: bool)
    ensures
        r == is_hls_text(content@),
{
    let s = to_chars(content);
    has_text(&s, "#EXT-X-STREAM-INF") || has_text(&s, "#EXT-X-TARGETDURATION") || has_text(
        &s,
        "#EXT-X-MEDIA-SEQUENCE",
    )
}

// ---- Options ---------------------------------------------------------------

/// The options to open a source with, as keys and values.
#[derive(Debug)]
pub struct DemuxOptions {
    entries: Vec<(&'static str, String)>,
}

impl View for DemuxOptions {
    type V = Seq<(Seq<char>, Seq<char>)>;

    closed spec fn view(&self) -> Seq<(Seq<char>, Seq<char>)> {
        Seq::new(self.entries@.len(), |i: int| (self.entries@[i].0@, self.entries@[i].1@))
    }
}

/// The value of the first entry with this key.
pub open spec fn option_value(entries: Seq<(Seq<char>, Seq<char>)>, key: Seq<char>) -> Option<
    Seq<char>,
>
    decreases entries.len(),
{
    if entries.len() == 0 {
        None
    } else if entries[0].0 == key {
        Some(entries[0].1)
    } else {
        option_value(entries.skip(1), key)
    }
}

/// The protocols that a source of this kind may lead to; any for a local one.
///
/// The demuxer follows the URLs that a manifest holds. A remote manifest must
/// not reach local files, or chain protocols together.
pub open spec fn allowed_protocols(kind: StreamKind) -> Option<Seq<Seq<char>>> {
    match kind {
        StreamKind::Local | StreamKind::BluRay => None,
        StreamKind::Http | StreamKind::Hls => Some(
            seq!["http"@, "https"@, "tcp"@, "tls"@, "crypto"@, "data"@, "httpproxy"@],
        ),
        StreamKind::Rtsp => Some(
            seq!["rtsp"@, "rtps"@, "rtp"@, "udp"@, "tcp"@, "tls"@, "crypto"@, "http"@, "https"@],
        ),
        StreamKind::Iptv => Some(
            seq!["udp"@, "rtp"@, "tcp"@, "http"@, "https"@, "tls"@, "crypto"@],
        ),
    }
}

/// The whitelist entry of a source of this kind, if it has one.
pub open spec fn whitelist(kind: StreamKind) -> Seq<(Seq<char>, Seq<char>)> {
    match allowed_protocols(kind) {
        Some(names) => seq![("protocol_whitelist"@, join(names, ","@))],
        None => seq![],
    }
}

/// The options to open a source of this kind with.
pub open spec fn options_for(kind: StreamKind) -> Seq<(Seq<char>, Seq<char>)> {
    whitelist(kind) + match kind {
        StreamKind::Local | StreamKind::BluRay => seq![],
        StreamKind::Http | StreamKind::Hls => seq![
            ("reconnect"@, "1"@),
            ("reconnect_streamed"@, "1"@),
            ("reconnect_delay_max"@, "5"@),
            ("rw_timeout"@, "15000000"@),
            ("user_agent"@, USER_AGENT@),
        ],
        StreamKind::Rtsp => seq![("rtsp_transport"@, "tcp"@), ("stimeout"@, "15000000"@)],
        StreamKind::Iptv => seq![("fifo_size"@, "1000000"@), ("overrun_nonfatal"@, "1"@)],
    }
}

impl DemuxOptions {
    /// No option.
    fn new() -> (r: DemuxOptions)
        ensures
            r@ == Seq::<(Seq<char>, Seq<char>)>::empty(),
    {
        let r = DemuxOptions { entries: Vec::new() };
        assert(r@ == Seq::<(Seq<char>, Seq<char>)>::empty());
        r
    }

    /// Adds an option.
    fn set(&mut self, key: &'static str, value: &str)
        ensures
            final(self)@ == old(self)@.push((key@, value@)),
    {
        self.entries.push((key, value.to_owned()));
        assert(self@ == old(self)@.push((key@, value@)));
    }

    /// The number of options.
    pub fn len(&self) -> (n: usize)
        ensures
            n == self@.len(),
    {
        self.entries.len()
    }

    /// The key and the value of the option at `i`.
    pub fn entry(&self, i: usize) -> (r: (&str, &str))
        requires
            i < self@.len(),
        ensures
            r.0@ == self@[i as int].0,
            r.1@ == self@[i as int].1,
    {
        (self.entries[i].0, self.entries[i].1.as_str())
    }

    /// The value of an option.
    pub fn get(&self, key: &str) -> (r: Option<&str>)
        ensures
            r matches Some(v) ==> option_value(self@, key@) == Some(v@),
            r is None ==> option_value(self@, key@) is None,
    {
        let wanted = to_chars(key);
        let mut i: usize = 0;
        assert(self@.skip(0) == self@);
        while i < self.entries.len()
            invariant
                wanted@ == key@,
                i <= self@.len(),
                self@.len() == self.entries@.len(),
                option_value(self@, key@) == option_value(self@.skip(i as int), key@),
            decreases self@.len() - i,
        {
            assert(self@.skip(i as int).skip(1) == self@.skip(i + 1));
            assert(self@.skip(i as int)[0] == self@[i as int]);
            if same_str(self.entries[i].0, &wanted) {
                return Some(self.entries[i].1.as_str());
            }
            i = i + 1;
        }
        None
    }
}

/// The options to open a source of this kind with. A remote source has a strict
/// list of protocols.
pub fn demux_options(kind: StreamKind) -> (opts: DemuxOptions)
    ensures
        opts@ == options_for(kind),
{
    let mut opts = DemuxOptions::new();
    match kind {
        StreamKind::Local | StreamKind::BluRay => {},
        StreamKind::Http | StreamKind::Hls => {
            let names: Vec<&str> = vec!["http", "https", "tcp", "tls", "crypto", "data", "httpproxy"];
            let list = comma_list(&names);
            assert(strs(names@) == allowed_protocols(kind)->0);
            opts.set("protocol_whitelist", list.as_str());
            opts.set("reconnect", "1");
            opts.set("reconnect_streamed", "1");
            opts.set("reconnect_delay_max", "5");
            opts.set("rw_timeout", "15000000");
            opts.set("user_agent", USER_AGENT);
        },
        StreamKind::Rtsp => {
            let names: Vec<&str> = vec![
                "rtsp", "rtps", "rtp", "udp", "tcp", "tls", "crypto", "http", "https",
            ];
            let list = comma_list(&names);
            assert(strs(names@) == allowed_protocols(kind)->0);
            opts.set("protocol_whitelist", list.as_str());
            opts.set("rtsp_transport", "tcp");
            opts.set("stimeout", "15000000");
        },
        StreamKind::Iptv => {
            let names: Vec<&str> = vec!["udp", "rtp", "tcp", "http", "https", "tls", "crypto"];
            let list = comma_list(&names);
            assert(strs(names@) == allowed_protocols(kind)->0);
            opts.set("protocol_whitelist", list.as_str());
            opts.set("fifo_size", "1000000");
            opts.set("overrun_nonfatal", "1");
        },
    }
    opts
}

/// The names with commas between them.
fn comma_list(names: &Vec<&str>) -> (r: String)
    ensures
        r@ == join(strs(names@), ","@),
{
    let mut out: Vec<char> = Vec::new();
    let mut i: usize = 0;
    let ghost all = strs(names@);
    while i < names.len()
        invariant
            i <= names@.len(),
            all == strs(names@),
            out@ == join(all.take(i as int), ","@),
        decreases names@.len() - i,
    {
        if i > 0 {
            push_text(&mut out, ",");
        }
        push_text(&mut out, names[i]);
        proof {
            assert(all.take(i + 1).drop_last() == all.take(i as int));
            if i == 0 {
                assert(out@ == all[0]);
            }
        }
        i = i + 1;
    }
    assert(all.take(names@.len() as int) == all);
    from_chars(&out)
}

// ---- Laws ------------------------------------------------------------------

/// Splitting a list at its commas gives back the names that it was made of.
pub proof fn law_split_undoes_join(names: Seq<Seq<char>>)
    requires
        names.len() > 0,
        forall|i: int| 0 <= i < names.len() ==> !(#[trigger] names[i]).contains(','),
    ensures
        split(join(names, seq![',']), seq![',']) == names,
    decreases names.len(),
{
    let comma = seq![','];
    let first = names[0];
    let whole = join(names, comma);
    if names.len() == 1 {
        assert(whole == first);
        assert(find(whole, comma) is None) by {
            lemma_find(whole, comma);
            if contains(whole, comma) {
                let i = choose|i: int| #[trigger] matches_at(whole, comma, i);
                assert(whole.subrange(i, i + 1)[0] == ',');
                assert(first.contains(whole[i]));
            }
        }
        assert(split(whole, comma) == seq![whole]);
        assert(names == seq![first]);
    } else {
        let rest = names.skip(1);
        let tail = join(rest, comma);
        lemma_join_first(names, comma);
        assert(whole == first + comma + tail);
        assert forall|i: int| 0 <= i < rest.len() implies !(#[trigger] rest[i]).contains(',') by {
            assert(rest[i] == names[i + 1]);
        }
        law_split_undoes_join(rest);
        let at = first.len() as int;
        assert(matches_at(whole, comma, at)) by {
            assert(whole.subrange(at, at + 1) == comma);
        }
        assert forall|k: int| 0 <= k < at implies !#[trigger] matches_at(whole, comma, k) by {
            if matches_at(whole, comma, k) {
                assert(whole.subrange(k, k + 1)[0] == ',');
                assert(first[k] == whole[k]);
                assert(first.contains(first[k]));
            }
        }
        lemma_find_is(whole, comma, at);
        assert(whole.take(at) == first);
        assert(whole.skip(at + 1) == tail);
        assert(split(whole, comma) == seq![first] + split(tail, comma));
        assert(names == seq![first] + rest);
    }
}

/// A join begins with its first text.
pub proof fn lemma_join_first(parts: Seq<Seq<char>>, sep: Seq<char>)
    requires
        parts.len() > 1,
    ensures
        join(parts, sep) == parts[0] + sep + join(parts.skip(1), sep),
    decreases parts.len(),
{
    let rest = parts.skip(1);
    if parts.len() == 2 {
        assert(parts.drop_last() == seq![parts[0]]);
        assert(join(parts.drop_last(), sep) == parts[0]);
        assert(rest == seq![parts[1]]);
        assert(join(rest, sep) == parts[1]);
    } else {
        lemma_join_first(parts.drop_last(), sep);
        assert(parts.drop_last().skip(1) == rest.drop_last());
        assert(join(rest, sep) == join(rest.drop_last(), sep) + sep + rest.last());
        assert(parts.last() == rest.last());
        assert(join(parts, sep) == parts[0] + sep + (join(rest.drop_last(), sep) + sep
            + rest.last()));
    }
}

/// A protocol that would reach local files or chain other protocols.
pub open spec fn is_unsafe_protocol(name: Seq<char>) -> bool {
    ||| name == "file"@
    ||| name == "concat"@
    ||| name == "subfile"@
    ||| name == "fd"@
    ||| name == "pipe"@
}

/// Every network source has a list of protocols, and none of those on it
/// reaches local files or chains others; a local source has no such list.
pub proof fn law_network_sources_stay_remote(kind: StreamKind)
    ensures
        kind is Local || kind is BluRay <==> option_value(
            options_for(kind),
            "protocol_whitelist"@,
        ) is None,
        option_value(options_for(kind), "protocol_whitelist"@) matches Some(list) ==> forall|
            i: int,
        |
            0 <= i < split(list, seq![',']).len() ==> !is_unsafe_protocol(
                #[trigger] split(list, seq![','])[i],
            ),
{
    reveal_strlit("http");
    reveal_strlit("https");
    reveal_strlit("tcp");
    reveal_strlit("tls");
    reveal_strlit("crypto");
    reveal_strlit("data");
    reveal_strlit("httpproxy");
    reveal_strlit("rtsp");
    reveal_strlit("rtps");
    reveal_strlit("rtp");
    reveal_strlit("udp");
    reveal_strlit("file");
    reveal_strlit("concat");
    reveal_strlit("subfile");
    reveal_strlit("fd");
    reveal_strlit("pipe");
    reveal_strlit(",");
    assert(","@ == seq![',']);
    match allowed_protocols(kind) {
        Some(names) => {
            assert forall|i: int| 0 <= i < names.len() implies !(#[trigger] names[i]).contains(
                ',',
            ) by {}
            law_split_undoes_join(names);
            assert(options_for(kind)[0] == ("protocol_whitelist"@, join(names, ","@)));
            assert forall|i: int| 0 <= i < names.len() implies !is_unsafe_protocol(
                #[trigger] names[i],
            ) by {
                let name = names[i];
                assert(name[0] != 'f' && name[0] != 's' && name[0] != 'p');
                assert(name[1] != 'o');
                assert("concat"@[1] == 'o' && "pipe"@[0] == 'p');
                assert("file"@[0] == 'f' && "fd"@[0] == 'f' && "subfile"@[0] == 's');
            }
        },
        None => {},
    }
}

/// A source that is ready for the demuxer stays as it is.
pub proof fn law_normalizing_twice_is_once(input: Seq<char>, first: bool, second: bool)
    requires
        second ==> first,
    ensures
        normalized(normalized(input, first), second) == normalized(input, first),
{
    reveal_strlit("bluray:");
    assert(("bluray:"@ + input).take(7) == "bluray:"@);
}

/// A source is taken by its scheme, and one of HTTP by what it names: a manifest, a
/// list of channels, or a medium. What has no scheme of the network is local.
pub proof fn law_kind_goes_by_the_scheme(s: Seq<char>)
    ensures
        starts_with(lowered(s), "rtsp://"@) ==> kind_of(s) == StreamKind::Rtsp,
        starts_with(lowered(s), "udp://"@) ==> kind_of(s) == StreamKind::Iptv,
        starts_with(lowered(s), "rtp://"@) ==> kind_of(s) == StreamKind::Iptv,
        starts_with(lowered(s), "bluray:"@) ==> kind_of(s) == StreamKind::BluRay,
        starts_with(lowered(s), "http://"@) || starts_with(lowered(s), "https://"@) ==> kind_of(s)
            == (if contains(lowered(s), ".m3u8"@) {
            StreamKind::Hls
        } else if ends_with(lowered(s), ".m3u"@) {
            StreamKind::Iptv
        } else {
            StreamKind::Http
        }),
        !contains(lowered(s), "://"@) && !starts_with(lowered(s), "bluray:"@) ==> kind_of(s)
            == StreamKind::Local,
        kind_of(s) == StreamKind::Local ==> !is_url_text(s),
{
    reveal_strlit("rtsp://");
    reveal_strlit("udp://");
    reveal_strlit("rtp://");
    reveal_strlit("rtmp://");
    reveal_strlit("mms://");
    reveal_strlit("http://");
    reveal_strlit("https://");
    reveal_strlit("bluray:");
    reveal_strlit("://");
    let l = lowered(s);
    lemma_scheme(l, "rtsp://"@);
    lemma_scheme(l, "rtmp://"@);
    lemma_scheme(l, "udp://"@);
    lemma_scheme(l, "rtp://"@);
    lemma_scheme(l, "mms://"@);
    lemma_scheme(l, "http://"@);
    lemma_scheme(l, "https://"@);
    if starts_with(l, "bluray:"@) {
        assert(l.subrange(0, 7)[0] == 'b');
    }
}

/// A text that begins with a scheme has its first two letters and a colon with two
/// slashes.
proof fn lemma_scheme(l: Seq<char>, p: Seq<char>)
    requires
        p.len() > 3,
        p[p.len() - 3] == ':' && p[p.len() - 2] == '/' && p[p.len() - 1] == '/',
    ensures
        starts_with(l, p) ==> contains(l, "://"@) && l[0] == p[0] && l[1] == p[1] && l[2] == p[2],
{
    reveal_strlit("://");
    if starts_with(l, p) {
        let n = p.len() as int;
        let t = l.subrange(0, n);
        assert(t[0] == l[0] && t[1] == l[1] && t[2] == l[2]);
        assert(t[n - 3] == l[n - 3] && t[n - 2] == l[n - 2] && t[n - 1] == l[n - 1]);
        assert(l.subrange(n - 3, n) == "://"@);
        assert(matches_at(l, "://"@, n - 3));
    }
}

/// The case of a source's letters makes no difference to what it is.
pub proof fn law_kind_ignores_case(s: Seq<char>)
    ensures
        kind_of(lowered(s)) == kind_of(s),
        is_url_text(lowered(s)) == is_url_text(s),
{
    assert(lowered(lowered(s)) == lowered(s));
}

/// What stands behind a question mark or a hash sign is no part of the address.
pub proof fn law_query_is_cut_off(address: Seq<char>, mark: char, rest: Seq<char>)
    requires
        !address.contains('?'),
        !address.contains('#'),
        mark == '?' || mark == '#',
    ensures
        before_query(address + seq![mark] + rest) == address,
        before_query(address) == address,
{
    let f = |c: char| c != '?' && c != '#';
    let whole = address + seq![mark] + rest;
    let n = address.len();
    assert forall|i: int| 0 <= i < n implies f(#[trigger] address[i]) && f(whole[i]) by {
        assert(address.contains(address[i]));
    }
    assert forall|i: int| 0 <= i < n implies f(#[trigger] whole[i]) by {
        assert(f(address[i]));
    }
    lemma_run_is(whole, f, n);
    lemma_run_is(address, f, n);
    assert(whole.take(n as int) == address);
    assert(address.take(n as int) == address);
}

/// A disc image or a directory with a disc in it goes through the protocol for
/// discs, and nothing else is changed.
pub proof fn law_discs_are_opened_as_discs(input: Seq<char>, is_bdmv_dir: bool)
    ensures
        !is_bdmv_dir && !ends_with(lowered(input), ".iso"@) ==> normalized(input, is_bdmv_dir)
            == input,
        is_url_text(input) ==> normalized(input, is_bdmv_dir) == input,
        kind_of(input) == StreamKind::Local && (is_bdmv_dir || ends_with(lowered(input), ".iso"@))
            ==> normalized(input, is_bdmv_dir) == "bluray:"@ + input,
        kind_of(input) == StreamKind::Local && (is_bdmv_dir || ends_with(lowered(input), ".iso"@))
            ==> kind_of(normalized(input, is_bdmv_dir)) == StreamKind::BluRay,
{
    reveal_strlit("bluray:");
    let disc = "bluray:"@;
    assert(lowered(disc) == disc);
    if starts_with(input, disc) {
        assert(lowered(input).subrange(0, 7) == lowered(input.subrange(0, 7)));
    }
    let whole = disc + input;
    assert(lowered(whole).subrange(0, 7) == disc);
}

/// An address with a scheme of the network is one of the network, whatever follows.
pub proof fn law_schemes_of_the_network(rest: Seq<char>)
    ensures
        is_url_text("http://"@ + rest),
        is_url_text("https://"@ + rest),
        is_url_text("rtsp://"@ + rest),
        is_url_text("rtmp://"@ + rest),
        is_url_text("udp://"@ + rest),
        is_url_text("rtp://"@ + rest),
        is_url_text("mms://"@ + rest),
        kind_of("rtmp://"@ + rest) != StreamKind::Local,
        kind_of("mms://"@ + rest) != StreamKind::Local,
{
    reveal_strlit("http://");
    reveal_strlit("https://");
    reveal_strlit("rtsp://");
    reveal_strlit("rtmp://");
    reveal_strlit("udp://");
    reveal_strlit("rtp://");
    reveal_strlit("mms://");
    lemma_scheme_is_kept("http://"@, rest);
    lemma_scheme_is_kept("https://"@, rest);
    lemma_scheme_is_kept("rtsp://"@, rest);
    lemma_scheme_is_kept("rtmp://"@, rest);
    lemma_scheme_is_kept("udp://"@, rest);
    lemma_scheme_is_kept("rtp://"@, rest);
    lemma_scheme_is_kept("mms://"@, rest);
}

/// Lower case leaves a text in lower case as it is.
proof fn lemma_scheme_is_kept(p: Seq<char>, rest: Seq<char>)
    requires
        forall|i: int| 0 <= i < p.len() ==> !('A' as u32 <= #[trigger] p[i] as u32 <= 'Z' as u32),
    ensures
        starts_with(lowered(p + rest), p),
{
    assert(lowered(p + rest).subrange(0, p.len() as int) == p);
}

/// A playlist is a stream as soon as it bears one of the tags of a manifest, wherever that
/// stands.
pub proof fn law_manifests_bear_their_tags(a: Seq<char>, b: Seq<char>)
    ensures
        is_hls_text(a + "#EXT-X-STREAM-INF"@ + b),
        is_hls_text(a + "#EXT-X-TARGETDURATION"@ + b),
        is_hls_text(a + "#EXT-X-MEDIA-SEQUENCE"@ + b),
        !a.contains('#') ==> !is_hls_text(a),
{
    lemma_stands_between(a, "#EXT-X-STREAM-INF"@, b);
    lemma_stands_between(a, "#EXT-X-TARGETDURATION"@, b);
    lemma_stands_between(a, "#EXT-X-MEDIA-SEQUENCE"@, b);
    reveal_strlit("#EXT-X-STREAM-INF");
    reveal_strlit("#EXT-X-TARGETDURATION");
    reveal_strlit("#EXT-X-MEDIA-SEQUENCE");
    if !a.contains('#') {
        lemma_begins_nowhere(a, "#EXT-X-STREAM-INF"@);
        lemma_begins_nowhere(a, "#EXT-X-TARGETDURATION"@);
        lemma_begins_nowhere(a, "#EXT-X-MEDIA-SEQUENCE"@);
    }
}

proof fn lemma_stands_between(a: Seq<char>, p: Seq<char>, b: Seq<char>)
    ensures
        contains(a + p + b, p),
{
    let n = a.len() as int;
    assert((a + p + b).subrange(n, n + p.len()) == p);
    assert(matches_at(a + p + b, p, n));
}

proof fn lemma_begins_nowhere(s: Seq<char>, p: Seq<char>)
    requires
        p.len() > 0,
        !s.contains(p[0]),
    ensures
        !contains(s, p),
{
    if contains(s, p) {
        let i = choose|i: int| #[trigger] matches_at(s, p, i);
        assert(s.subrange(i, i + p.len())[0] == s[i]);
        assert(s.contains(s[i]));
    }
}

/// A stream over HTTP is taken up again when it breaks and given up after fifteen seconds
/// without an answer, as one over RTSP is, which is asked for over TCP; a live stream may
/// lose packets.
pub proof fn law_streams_have_their_options()
    ensures
        forall|kind: StreamKind|
            kind == StreamKind::Http || kind == StreamKind::Hls ==> {
                let o = #[trigger] options_for(kind);
                &&& o.contains(("reconnect"@, "1"@)) && o.contains(("reconnect_streamed"@, "1"@))
                &&& o.contains(("reconnect_delay_max"@, "5"@))
                &&& o.contains(("rw_timeout"@, "15000000"@))
                &&& o.contains(("user_agent"@, USER_AGENT@))
            },
        options_for(StreamKind::Rtsp).contains(("rtsp_transport"@, "tcp"@)),
        options_for(StreamKind::Rtsp).contains(("stimeout"@, "15000000"@)),
        options_for(StreamKind::Iptv).contains(("fifo_size"@, "1000000"@)),
        options_for(StreamKind::Iptv).contains(("overrun_nonfatal"@, "1"@)),
        options_for(StreamKind::Local).len() == 0,
{
    assert forall|kind: StreamKind|
        kind == StreamKind::Http || kind == StreamKind::Hls implies ({
        let o = #[trigger] options_for(kind);
        &&& o.contains(("reconnect"@, "1"@)) && o.contains(("reconnect_streamed"@, "1"@))
        &&& o.contains(("reconnect_delay_max"@, "5"@))
        &&& o.contains(("rw_timeout"@, "15000000"@))
        &&& o.contains(("user_agent"@, USER_AGENT@))
    }) by {
        let o = options_for(kind);
        assert(o[1] == ("reconnect"@, "1"@) && o[2] == ("reconnect_streamed"@, "1"@));
        assert(o[3] == ("reconnect_delay_max"@, "5"@) && o[4] == ("rw_timeout"@, "15000000"@));
        assert(o[5] == ("user_agent"@, USER_AGENT@));
    }
    let r = options_for(StreamKind::Rtsp);
    assert(r[1] == ("rtsp_transport"@, "tcp"@) && r[2] == ("stimeout"@, "15000000"@));
    let i = options_for(StreamKind::Iptv);
    assert(i[1] == ("fifo_size"@, "1000000"@) && i[2] == ("overrun_nonfatal"@, "1"@));
}

} // verus!
