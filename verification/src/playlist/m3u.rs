//! The M3U format.

use super::item::{Entry, PlaylistItem, bare_entry, entries};
use super::order::{Order, Playlist, is_valid};
use crate::paths::{is_absolute, join_path, joined};
use crate::streaming::{is_url_chars, is_url_text};
use crate::text::{
    contains, cut, from_chars, has_prefix, lemma_find, lemma_find_is, lemma_first_line,
    lemma_lines_concat, lemma_trim_keeps, lemma_trimmed_ends, lines, lines_of, matches_at, part,
    push_all, push_text, split_once, starts_with, texts, to_chars, trim, trimmed,
};
use crate::utils::name_of;
use crate::text_facts::lemma_char_is_absent;
use vstd::prelude::*;

verus! {

// ---- Reading ---------------------------------------------------------------

/// The value of an attribute `key="value"` of a line.
pub open spec fn attribute(line: Seq<char>, key: Seq<char>) -> Option<Seq<char>> {
    match split_once(line, key + "=\""@) {
        None => None,
        Some((_, rest)) => match split_once(rest, "\""@) {
            None => None,
            Some((value, _)) => Some(value),
        },
    }
}

/// What an `#EXTINF:` line says of the entry that follows it; nothing where a
/// part is missing.
#[verifier::ext_equal]
pub struct Info {
    pub title: Seq<char>,
    pub group: Seq<char>,
    pub logo: Seq<char>,
}

/// Nothing said.
pub open spec fn no_info() -> Info {
    Info { title: seq![], group: seq![], logo: seq![] }
}

/// The text, or none.
pub open spec fn or_empty(s: Option<Seq<char>>) -> Seq<char> {
    match s {
        Some(t) => t,
        None => seq![],
    }
}

/// What the text after `#EXTINF:` says.
pub open spec fn info_of(info: Seq<char>) -> Info {
    Info {
        title: match split_once(info, ","@) {
            Some((_, t)) => trim(t),
            None => seq![],
        },
        group: or_empty(attribute(info, "group-title"@)),
        logo: or_empty(attribute(info, "tvg-logo"@)),
    }
}

/// The source that a line names: a relative path is taken from `base`.
pub open spec fn resolved(line: Seq<char>, base: Option<Seq<char>>) -> Seq<char> {
    if is_url_text(line) || is_absolute(line) {
        line
    } else {
        match base {
            Some(b) => joined(b, line),
            None => line,
        }
    }
}

/// The entry for a source of which `info` is known.
pub open spec fn informed_entry(source: Seq<char>, info: Info) -> Entry {
    Entry {
        title: if info.title.len() > 0 {
            info.title
        } else {
            name_of(source)
        },
        group: info.group,
        logo: info.logo,
        ..bare_entry(source)
    }
}

/// What is known of the next entry, and the entries, after the lines `ls`.
pub open spec fn m3u_state(ls: Seq<Seq<char>>, base: Option<Seq<char>>) -> (Info, Seq<Entry>)
    decreases ls.len(),
{
    if ls.len() == 0 {
        (no_info(), seq![])
    } else {
        let (info, found) = m3u_state(ls.drop_last(), base);
        let line = trim(ls.last());
        if line.len() == 0 {
            (info, found)
        } else if starts_with(line, "#EXTINF:"@) {
            (info_of(line.skip("#EXTINF:"@.len() as int)), found)
        } else if line[0] == '#' {
            (info, found)
        } else {
            (no_info(), found.push(informed_entry(resolved(line, base), info)))
        }
    }
}

/// The entries of an M3U text.
pub open spec fn m3u_entries(text: Seq<char>, base: Option<Seq<char>>) -> Seq<Entry> {
    m3u_state(lines(text), base).1
}

/// The value of an attribute `key="value"` of a line.
pub fn extract_attr(line: &[char], key: &str) -> (r: Option<Vec<char>>)
    ensures
        r matches Some(v) ==> attribute(line@, key@) == Some(v@),
        r is None ==> attribute(line@, key@) is None,
{
    let mut needle = to_chars(key);
    push_text(&mut needle, "=\"");
    let quote = to_chars("\"");
    match cut(line, &needle) {
        None => None,
        Some((_, rest)) => match cut(rest, &quote) {
            None => None,
            Some((value, _)) => {
                let mut out: Vec<char> = Vec::new();
                push_all(&mut out, value);
                Some(out)
            },
        },
    }
}

/// The text, or none.
fn unwrapped(s: Option<Vec<char>>) -> (r: Vec<char>)
    ensures
        r@ == (match s {
            Some(t) => t@,
            None => seq![],
        }),
{
    match s {
        Some(t) => t,
        None => Vec::new(),
    }
}

/// What an `#EXTINF:` line says.
struct Pending {
    title: Vec<char>,
    group: Vec<char>,
    logo: Vec<char>,
}

impl View for Pending {
    type V = Info;

    closed spec fn view(&self) -> Info {
        Info { title: self.title@, group: self.group@, logo: self.logo@ }
    }
}

/// What the text after `#EXTINF:` says.
fn read_info(info: &[char]) -> (r: Pending)
    ensures
        r@ == info_of(info@),
{
    let comma = to_chars(",");
    let mut title: Vec<char> = Vec::new();
    if let Some((_, t)) = cut(info, &comma) {
        push_all(&mut title, trimmed(t));
    }
    let r = Pending {
        title,
        group: unwrapped(extract_attr(info, "group-title")),
        logo: unwrapped(extract_attr(info, "tvg-logo")),
    };
    assert(r@ =~= info_of(info@));
    r
}

/// The source that a line names.
fn resolve_source(line: &[char], base: Option<&str>) -> (r: String)
    ensures
        r@ == resolved(
            line@,
            match base {
                Some(b) => Some(b@),
                None => None,
            },
        ),
{
    if is_url_chars(line) || (line.len() > 0 && line[0] == '/') {
        from_chars(line)
    } else {
        match base {
            Some(b) => {
                let b = to_chars(b);
                from_chars(&join_path(&b, line))
            },
            None => from_chars(line),
        }
    }
}

/// The entry for a source of which something is known.
fn informed_item(source: &str, info: &Pending) -> (item: PlaylistItem)
    ensures
        item@ == informed_entry(source@, info@),
{
    let mut item = PlaylistItem::new(source);
    if info.title.len() > 0 {
        item.title = from_chars(&info.title);
    }
    item.group = from_chars(&info.group);
    item.logo = from_chars(&info.logo);
    assert(item@ =~= informed_entry(source@, info@));
    item
}

/// The text of a path, where there is one.
pub open spec fn path_text(base: Option<&str>) -> Option<Seq<char>> {
    match base {
        Some(b) => Some(b@),
        None => None,
    }
}

/// Reads the entries of an M3U text. Relative paths are taken from `base`;
/// there is none for a text that came over the network.
pub fn parse_m3u_content(text: &str, base: Option<&str>) -> (items: Vec<PlaylistItem>)
    ensures
        entries(items@) == m3u_entries(text@, path_text(base)),
{
    let chars = to_chars(text);
    let ls = lines_of(&chars);
    let ghost all = texts(ls@);
    let ghost b = path_text(base);
    let mut items: Vec<PlaylistItem> = Vec::new();
    let mut pending: Pending = Pending { title: Vec::new(), group: Vec::new(), logo: Vec::new() };
    let mut i: usize = 0;
    assert(all.take(0) == Seq::<Seq<char>>::empty());
    assert(pending@ =~= no_info());
    assert(entries(items@) =~= m3u_state(all.take(0), b).1);
    while i < ls.len()
        invariant
            i <= ls@.len(),
            all == texts(ls@),
            b == path_text(base),
            pending@ == m3u_state(all.take(i as int), b).0,
            entries(items@) == m3u_state(all.take(i as int), b).1,
        decreases ls@.len() - i,
    {
        let ghost before = entries(items@);
        assert(all.take(i + 1).drop_last() == all.take(i as int));
        assert(all.take(i + 1).last() == ls@[i as int]@);
        let line = trimmed(ls[i]);
        let n: usize = line.len();
        if n > 0 {
            if has_prefix(line, "#EXTINF:") {
                let info = part(line, to_chars("#EXTINF:").len(), n);
                assert(info@ == line@.skip("#EXTINF:"@.len() as int));
                pending = read_info(info);
            } else if line[0] != '#' {
                let source = resolve_source(line, base);
                let item = informed_item(source.as_str(), &pending);
                items.push(item);
                assert(entries(items@) == before.push(item@));
                pending = Pending { title: Vec::new(), group: Vec::new(), logo: Vec::new() };
                assert(pending@ =~= no_info());
            }
        }
        i = i + 1;
    }
    assert(all.take(ls@.len() as int) == all);
    items
}

// ---- Writing ---------------------------------------------------------------

/// The line that says what an entry is.
pub open spec fn info_line(e: Entry) -> Seq<char> {
    if e.group.len() == 0 {
        "#EXTINF:-1,"@ + e.title
    } else {
        "#EXTINF:-1 group-title=\""@ + e.group + "\","@ + e.title
    }
}

/// The two lines of an entry.
pub open spec fn entry_text(e: Entry) -> Seq<char> {
    info_line(e) + "\n"@ + e.source + "\n"@
}

/// The M3U text of the entries.
pub open spec fn m3u_text(es: Seq<Entry>) -> Seq<char>
    decreases es.len(),
{
    if es.len() == 0 {
        "#EXTM3U\n"@
    } else {
        m3u_text(es.drop_last()) + entry_text(es.last())
    }
}

impl Playlist {
    /// The playlist as an extended M3U text.
    pub fn save_m3u(&self) -> (r: String)
        ensures
            r@ == m3u_text(self@.items),
    {
        let mut out = to_chars("#EXTM3U\n");
        let items = self.items();
        let ghost all = entries(items@);
        let mut i: usize = 0;
        while i < items.len()
            invariant
                i <= items@.len(),
                all == entries(items@),
                out@ == m3u_text(all.take(i as int)),
            decreases items@.len() - i,
        {
            let item = &items[i];
            let ghost before = out@;
            assert(all.take(i + 1).drop_last() == all.take(i as int));
            assert(all.take(i + 1).last() == item@);
            proof {
                if item.group@.len() == 0 {
                    assert(item.group@ == Seq::<char>::empty());
                }
            }
            let group = to_chars(item.group.as_str());
            if group.len() == 0 {
                push_text(&mut out, "#EXTINF:-1,");
            } else {
                push_text(&mut out, "#EXTINF:-1 group-title=\"");
                push_all(&mut out, &group);
                push_text(&mut out, "\",");
            }
            push_text(&mut out, item.title.as_str());
            assert(out@ =~= before + info_line(item@));
            push_text(&mut out, "\n");
            push_text(&mut out, item.source.as_str());
            push_text(&mut out, "\n");
            assert(out@ =~= before + entry_text(item@));
            i = i + 1;
        }
        assert(all.take(items@.len() as int) == all);
        from_chars(&out)
    }

    /// Puts the entries of an M3U text in place of those that are there, and
    /// says how many there are.
    pub fn load_m3u(&mut self, text: &str, base: Option<&str>) -> (n: usize)
        ensures
            final(self)@ == (Order {
                items: m3u_entries(text@, path_text(base)),
                current: None,
                history: seq![],
                ..old(self)@
            }),
            is_valid(final(self)@),
            n == final(self)@.items.len(),
    {
        self.replace_items(parse_m3u_content(text, base));
        self.len()
    }
}

// ---- Laws ------------------------------------------------------------------

/// Whether an entry can be stored in a line-based text and be found again: its
/// parts hold no line break, its title and source stand without white space
/// around them, the source is no comment and is the same wherever it is read
/// from, and neither the group nor the title looks like something else.
pub open spec fn is_storable(e: Entry, base: Option<Seq<char>>) -> bool {
    &&& !e.source.contains('\n') && !e.title.contains('\n') && !e.group.contains('\n')
    &&& e.source.len() > 0 && trim(e.source) == e.source && e.source[0] != '#'
    &&& resolved(e.source, base) == e.source
    &&& e.title.len() > 0 && trim(e.title) == e.title
    &&& !e.group.contains('"') && !e.group.contains(',')
    &&& e.group.len() == 0 ==> or_empty(attribute("-1,"@ + e.title, "group-title"@)).len() == 0
}

/// What is read back of an entry: its source, title and group. The logo is not
/// stored.
pub open spec fn same_stored(a: Entry, b: Entry) -> bool {
    a.source == b.source && a.title == b.title && a.group == b.group
}

proof fn lemma_split_at_first(before: Seq<char>, sep: char, after: Seq<char>)
    requires
        !before.contains(sep),
    ensures
        split_once(before + seq![sep] + after, seq![sep]) == Some((before, after)),
{
    let s = before + seq![sep] + after;
    let at = before.len() as int;
    assert(s.subrange(at, at + 1) == seq![sep]);
    assert forall|k: int| 0 <= k < at implies !#[trigger] matches_at(s, seq![sep], k) by {
        if matches_at(s, seq![sep], k) {
            assert(s.subrange(k, k + 1)[0] == sep);
            assert(before[k] == s[k]);
            assert(before.contains(before[k]));
        }
    }
    lemma_find_is(s, seq![sep], at);
    assert(s.take(at) == before);
    assert(s.skip(at + 1) == after);
}

/// What the info line of a storable entry says of it.
proof fn lemma_info_read_back(e: Entry, base: Option<Seq<char>>)
    requires
        is_storable(e, base),
    ensures
        starts_with(info_line(e), "#EXTINF:"@),
        info_of(info_line(e).skip("#EXTINF:"@.len() as int)).title == e.title,
        info_of(info_line(e).skip("#EXTINF:"@.len() as int)).group == e.group,
{
    reveal_strlit("#EXTINF:");
    reveal_strlit("#EXTINF:-1,");
    reveal_strlit("#EXTINF:-1 group-title=\"");
    reveal_strlit("\",");
    reveal_strlit(",");
    reveal_strlit("\"");
    reveal_strlit("=\"");
    reveal_strlit("-1,");
    reveal_strlit("group-title");
    let line = info_line(e);
    let info = line.skip(8);
    assert(line.subrange(0, 8) == "#EXTINF:"@);
    assert(","@ == seq![',']);
    assert("\""@ == seq!['"']);
    if e.group.len() == 0 {
        assert(info == "-1,"@ + e.title);
        assert(info == seq!['-', '1'] + seq![','] + e.title);
        assert(!seq!['-', '1'].contains(','));
        lemma_split_at_first(seq!['-', '1'], ',', e.title);
        assert(e.group == or_empty(attribute(info, "group-title"@)));
    } else {
        let key = "group-title"@ + "=\""@;
        let head = seq!['-', '1', ' '];
        let rest = e.group + seq!['"'] + (seq![','] + e.title);
        assert(info == head + key + rest);
        assert(info.subrange(3, 3int + key.len()) == key);
        assert forall|k: int| 0 <= k < 3 implies !#[trigger] matches_at(info, key, k) by {
            if matches_at(info, key, k) {
                assert(info.subrange(k, k + key.len())[0] == key[0]);
                assert(info[k] == head[k]);
            }
        }
        lemma_find_is(info, key, 3);
        assert(info.skip(3int + key.len()) == rest);
        lemma_split_at_first(e.group, '"', seq![','] + e.title);
        assert(attribute(info, "group-title"@) == Some(e.group));
        let before = head + key + e.group + seq!['"'];
        assert(info == before + seq![','] + e.title);
        assert(!before.contains(',')) by {
            if before.contains(',') {
                let k = choose|k: int| 0 <= k < before.len() && before[k] == ',';
                let g = 3int + key.len();
                if g <= k < g + e.group.len() {
                    assert(before[k] == e.group[k - g]);
                    assert(e.group.contains(e.group[k - g]));
                } else if k < 3 {
                    assert(before[k] == head[k]);
                } else if k < g {
                    assert(before[k] == key[k - 3]);
                }
            }
        }
        lemma_split_at_first(before, ',', e.title);
    }
}

/// The lines of a storable entry.
proof fn lemma_entry_lines(e: Entry, base: Option<Seq<char>>)
    requires
        is_storable(e, base),
    ensures
        lines(entry_text(e)) == seq![info_line(e), e.source],
        trim(info_line(e)) == info_line(e),
        info_line(e).len() > 0,
{
    reveal_strlit("#EXTINF:-1,");
    reveal_strlit("#EXTINF:-1 group-title=\"");
    reveal_strlit("\",");
    reveal_strlit("\n");
    assert("\n"@ == seq!['\n']);
    let line = info_line(e);
    lemma_trimmed_ends(e.title);
    lemma_trimmed_ends(e.source);
    assert(line.last() == e.title.last());
    assert(line[0] == '#');
    lemma_trim_keeps(line);
    assert(!line.contains('\n')) by {
        if line.contains('\n') {
            let k = choose|k: int| 0 <= k < line.len() && line[k] == '\n';
            let t = line.len() - e.title.len();
            if k >= t {
                assert(line[k] == e.title[k - t]);
                assert(e.title.contains(e.title[k - t]));
            } else if e.group.len() > 0 {
                let head = "#EXTINF:-1 group-title=\""@;
                let g = head.len() as int;
                if g <= k < g + e.group.len() {
                    assert(line[k] == e.group[k - g]);
                    assert(e.group.contains(e.group[k - g]));
                } else if k < g {
                    assert(line[k] == head[k]);
                }
            }
        }
    }
    let tail = e.source + seq!['\n'];
    assert(entry_text(e) == line + seq!['\n'] + tail);
    lemma_first_line(line, tail);
    assert(tail == e.source + seq!['\n'] + Seq::<char>::empty());
    lemma_first_line(e.source, Seq::<char>::empty());
    assert(lines(Seq::<char>::empty()) == Seq::<Seq<char>>::empty());
    assert(lines(tail) == seq![e.source]);
    assert(seq![line] + seq![e.source] == seq![line, e.source]);
}

/// A playlist that is stored as M3U and read again has the same sources, titles
/// and groups in the same order.
pub proof fn law_m3u_round_trip(es: Seq<Entry>, base: Option<Seq<char>>)
    requires
        forall|i: int| 0 <= i < es.len() ==> is_storable(#[trigger] es[i], base),
    ensures
        m3u_entries(m3u_text(es), base).len() == es.len(),
        forall|i: int|
            0 <= i < es.len() ==> same_stored(
                #[trigger] m3u_entries(m3u_text(es), base)[i],
                es[i],
            ),
{
    lemma_m3u_state(es, base);
}

proof fn lemma_m3u_state(es: Seq<Entry>, base: Option<Seq<char>>)
    requires
        forall|i: int| 0 <= i < es.len() ==> is_storable(#[trigger] es[i], base),
    ensures
        m3u_text(es).len() > 0 && m3u_text(es).last() == '\n',
        m3u_state(lines(m3u_text(es)), base).0 == no_info(),
        m3u_state(lines(m3u_text(es)), base).1.len() == es.len(),
        forall|i: int|
            0 <= i < es.len() ==> same_stored(
                #[trigger] m3u_state(lines(m3u_text(es)), base).1[i],
                es[i],
            ),
    decreases es.len(),
{
    reveal_strlit("\n");
    reveal_strlit("#EXTM3U\n");
    reveal_strlit("#EXTINF:");
    let text = m3u_text(es);
    let ls = lines(text);
    if es.len() == 0 {
        let head = seq!['#', 'E', 'X', 'T', 'M', '3', 'U'];
        assert(text == head + seq!['\n'] + Seq::<char>::empty());
        lemma_first_line(head, Seq::<char>::empty());
        assert(lines(Seq::<char>::empty()) == Seq::<Seq<char>>::empty());
        assert(ls == seq![head]);
        lemma_trim_keeps(head);
        assert(ls.drop_last() == Seq::<Seq<char>>::empty());
        assert(!starts_with(head, "#EXTINF:"@));
        assert(m3u_state(ls.drop_last(), base) == (no_info(), Seq::<Entry>::empty()));
    } else {
        let less = es.drop_last();
        let e = es.last();
        assert forall|i: int| 0 <= i < less.len() implies is_storable(#[trigger] less[i], base) by {
            assert(less[i] == es[i]);
        }
        lemma_m3u_state(less, base);
        assert(is_storable(es[es.len() - 1], base));
        let before = lines(m3u_text(less));
        lemma_lines_concat(m3u_text(less), entry_text(e));
        lemma_entry_lines(e, base);
        lemma_info_read_back(e, base);
        assert(text.last() == '\n');
        assert(ls == before.push(info_line(e)).push(e.source));
        let middle = before.push(info_line(e));
        assert(ls.drop_last() == middle);
        assert(middle.drop_last() == before);
        assert(starts_with(e.source, "#EXTINF:"@) ==> e.source.subrange(0, 8)[0] == '#');
        let found = m3u_state(before, base).1;
        assert(m3u_state(middle, base).1 == found);
        let all = m3u_state(ls, base).1;
        assert(all.len() == found.len() + 1);
        assert(all.drop_last() == found);
        assert forall|i: int| 0 <= i < es.len() implies same_stored(#[trigger] all[i], es[i]) by {
            if i < less.len() {
                assert(all[i] == found[i]);
                assert(less[i] == es[i]);
            }
        }
    }
}

/// Whether a line is blank, or a comment that says nothing of an entry.
pub open spec fn says_nothing(line: Seq<char>) -> bool {
    let t = trim(line);
    t.len() == 0 || (t[0] == '#' && !starts_with(t, "#EXTINF:"@))
}

/// Blank lines and comments say nothing: wherever they stand, the entries are
/// those of the text without them.
pub proof fn law_other_lines_say_nothing(
    a: Seq<Seq<char>>,
    c: Seq<char>,
    b: Seq<Seq<char>>,
    base: Option<Seq<char>>,
)
    requires
        says_nothing(c),
    ensures
        m3u_state(a + seq![c] + b, base) == m3u_state(a + b, base),
    decreases b.len(),
{
    let with = a + seq![c] + b;
    if b.len() == 0 {
        assert(with.drop_last() == a);
        assert(with.last() == c);
        assert(a + b == a);
    } else {
        law_other_lines_say_nothing(a, c, b.drop_last(), base);
        assert(with.drop_last() == a + seq![c] + b.drop_last());
        assert((a + b).drop_last() == a + b.drop_last());
        assert(with.last() == b.last() && (a + b).last() == b.last());
    }
}

/// An address gives one entry, behind those that are there, and what was said of it
/// holds of that entry alone. A path is taken from where the list stands.
pub proof fn law_address_gives_one_entry(
    ls: Seq<Seq<char>>,
    line: Seq<char>,
    base: Option<Seq<char>>,
)
    requires
        trim(line) == line,
        line.len() > 0 && line[0] != '#',
    ensures
        ({
            let (info, found) = m3u_state(ls, base);
            let (rest, all) = m3u_state(ls.push(line), base);
            &&& rest.title.len() == 0 && rest.group.len() == 0 && rest.logo.len() == 0
            &&& all.len() == found.len() + 1
            &&& all.drop_last() == found
            &&& all.last().group == info.group
            &&& all.last().logo == info.logo
            &&& info.title.len() > 0 ==> all.last().title == info.title
            &&& info.title.len() == 0 ==> all.last().title == name_of(all.last().source)
            &&& is_url_text(line) || line[0] == '/' || base is None ==> all.last().source == line
            &&& !is_url_text(line) && line[0] != '/' && base is Some ==> all.last().source
                == joined(base->0, line)
        }),
{
    reveal_strlit("#EXTINF:");
    assert(ls.push(line).drop_last() == ls);
    if starts_with(line, "#EXTINF:"@) {
        assert(line.subrange(0, 8)[0] == line[0]);
    }
    let (info, found) = m3u_state(ls, base);
    assert(m3u_state(ls.push(line), base).1.drop_last() == found);
}

/// A line of information with a logo and a group.
pub open spec fn channel_line(logo: Seq<char>, group: Seq<char>, title: Seq<char>) -> Seq<char> {
    "#EXTINF:"@ + channel_info(logo, group, title)
}

/// What it says of the entry.
pub open spec fn channel_info(logo: Seq<char>, group: Seq<char>, title: Seq<char>) -> Seq<char> {
    seq!['-', '1', ' '] + ("tvg-logo"@ + "=\""@) + logo + seq!['"', ' '] + ("group-title"@
        + "=\""@) + group + seq!['"'] + seq![','] + title
}

/// Where the parts of the information stand.
pub open spec fn before_group(logo: Seq<char>) -> Seq<char> {
    seq!['-', '1', ' '] + ("tvg-logo"@ + "=\""@) + logo + seq!['"', ' ']
}

proof fn lemma_channel_logo(logo: Seq<char>, rest: Seq<char>)
    requires
        !logo.contains('"'),
    ensures
        attribute(before_group(logo) + rest, "tvg-logo"@) == Some(logo),
{
    reveal_strlit("tvg-logo");
    reveal_strlit("=\"");
    reveal_strlit("\"");
    assert("\""@ == seq!['"']);
    let head = seq!['-', '1', ' '];
    let key = "tvg-logo"@ + "=\""@;
    let info = before_group(logo) + rest;
    let after = seq![' '] + rest;
    assert(info == head + key + (logo + seq!['"'] + after));
    assert(info.subrange(3, 3int + key.len()) == key);
    assert forall|k: int| 0 <= k < 3 implies !#[trigger] matches_at(info, key, k) by {
        if matches_at(info, key, k) {
            assert(info.subrange(k, k + key.len())[0] == info[k]);
            assert(info[k] == head[k]);
        }
    }
    lemma_find_is(info, key, 3);
    assert(info.skip(3int + key.len()) == logo + seq!['"'] + after);
    lemma_split_at_first(logo, '"', after);
}

/// A quotation mark behind an equals sign stands before the logo alone.
proof fn lemma_before_group(logo: Seq<char>, k: int)
    requires
        !logo.contains('"') && !logo.contains('='),
        0 < k < before_group(logo).len(),
        before_group(logo)[k] == '"',
        before_group(logo)[k - 1] == '=',
    ensures
        k == 12,
{
    reveal_strlit("tvg-logo");
    reveal_strlit("=\"");
    let s = before_group(logo);
    if 13 <= k < 13 + logo.len() {
        assert(s[k] == logo[k - 13]);
        assert(logo.contains(logo[k - 13]));
    } else if k == 13 + logo.len() {
        if logo.len() > 0 {
            assert(s[k - 1] == logo[k - 14]);
            assert(logo.contains(logo[k - 14]));
        } else {
            assert(s[12] == '"');
        }
    } else if k == 14 + logo.len() {
        assert(s[k] == ' ');
    }
}

/// A key that ends with an equals sign and a quotation mark does not stand before
/// the place where it was put.
proof fn lemma_no_key_before(before: Seq<char>, key: Seq<char>, rest: Seq<char>, k: int)
    requires
        key.len() == 13,
        key[11] == '=' && key[12] == '"',
        forall|i: int| 0 <= i < 12 ==> #[trigger] key[i] != '"',
        before.len() > 12,
        before[0] != key[0],
        forall|i: int|
            0 < i < before.len() && #[trigger] before[i] == '"' && before[i - 1] == '=' ==> i == 12,
        0 <= k < before.len(),
    ensures
        !matches_at(before + key + rest, key, k),
{
    let info = before + key + rest;
    let b = before.len() as int;
    if matches_at(info, key, k) {
        let t = info.subrange(k, k + 13);
        assert(t[0] == info[k] && t[11] == info[k + 11] && t[12] == info[k + 12]);
        if k + 12 < b {
            assert(info[k + 12] == before[k + 12] && info[k + 11] == before[k + 11]);
        } else {
            assert(info[k + 12] == key[k + 12 - b]);
        }
    }
}

proof fn lemma_channel_group(logo: Seq<char>, group: Seq<char>, tail: Seq<char>)
    requires
        !logo.contains('"') && !logo.contains('='),
        !group.contains('"'),
    ensures
        attribute(
            before_group(logo) + ("group-title"@ + "=\""@) + (group + seq!['"'] + tail),
            "group-title"@,
        ) == Some(group),
{
    reveal_strlit("\"");
    assert("\""@ == seq!['"']);
    let before = before_group(logo);
    let key = "group-title"@ + "=\""@;
    let rest = group + seq!['"'] + tail;
    let info = before + key + rest;
    let b = before.len() as int;
    assert(key.len() == 13 && key[0] == 'g' && key[11] == '=' && key[12] == '"' && (forall|i: int|
        0 <= i < 12 ==> #[trigger] key[i] != '"')) by {
        reveal_strlit("group-title");
        reveal_strlit("=\"");
    }
    assert(b > 12 && before[0] == '-') by {
        reveal_strlit("tvg-logo");
        reveal_strlit("=\"");
    }
    assert forall|i: int|
        0 < i < before.len() && #[trigger] before[i] == '"' && before[i - 1] == '=' implies i
        == 12 by {
        lemma_before_group(logo, i);
    }
    assert forall|k: int| 0 <= k < b implies !#[trigger] matches_at(info, key, k) by {
        lemma_no_key_before(before, key, rest, k);
    }
    assert(info.subrange(b, b + 13) == key);
    lemma_find_is(info, key, b);
    assert(info.skip(b + 13) == rest);
    lemma_split_at_first(group, '"', tail);
}

proof fn lemma_channel_title(logo: Seq<char>, group: Seq<char>, title: Seq<char>)
    requires
        !logo.contains(','),
        !group.contains(','),
    ensures
        split_once(channel_info(logo, group, title), seq![',']) == Some(
            (before_group(logo) + ("group-title"@ + "=\""@) + group + seq!['"'], title),
        ),
{
    reveal_strlit("group-title");
    reveal_strlit("tvg-logo");
    reveal_strlit("=\"");
    let before = before_group(logo);
    let b = before.len() as int;
    let all = before + ("group-title"@ + "=\""@) + group + seq!['"'];
    assert(channel_info(logo, group, title) == all + seq![','] + title);
    assert(!all.contains(',')) by {
        if all.contains(',') {
            let k = choose|k: int| 0 <= k < all.len() && all[k] == ',';
            if k < b {
                assert(all[k] == before[k]);
                if 13 <= k < 13 + logo.len() {
                    assert(before[k] == logo[k - 13]);
                    assert(logo.contains(logo[k - 13]));
                }
            } else if b + 13 <= k < b + 13 + group.len() {
                assert(all[k] == group[k - b - 13]);
                assert(group.contains(group[k - b - 13]));
            }
        }
    }
    lemma_split_at_first(all, ',', title);
}

proof fn lemma_channel_info(logo: Seq<char>, group: Seq<char>, title: Seq<char>)
    requires
        !logo.contains('"') && !logo.contains(',') && !logo.contains('='),
        !group.contains('"') && !group.contains(','),
    ensures
        info_of(channel_info(logo, group, title)) == (Info { title: trim(title), group, logo }),
{
    reveal_strlit(",");
    assert(","@ == seq![',']);
    let info = channel_info(logo, group, title);
    let key = "group-title"@ + "=\""@;
    let tail = seq![','] + title;
    let rest = key + (group + seq!['"'] + tail);
    assert(info == before_group(logo) + key + (group + seq!['"'] + tail));
    assert(info == before_group(logo) + rest);
    lemma_channel_logo(logo, rest);
    lemma_channel_group(logo, group, tail);
    lemma_channel_title(logo, group, title);
}

/// What a line of information says of a channel holds of the entry that follows it:
/// its logo, its group and its title.
pub proof fn law_channel_is_read(
    ls: Seq<Seq<char>>,
    logo: Seq<char>,
    group: Seq<char>,
    title: Seq<char>,
    base: Option<Seq<char>>,
)
    requires
        !logo.contains('"') && !logo.contains(',') && !logo.contains('='),
        !group.contains('"') && !group.contains(','),
        title.len() > 0 && trim(title) == title,
    ensures
        ({
            let (info, found) = m3u_state(ls.push(channel_line(logo, group, title)), base);
            &&& found == m3u_state(ls, base).1
            &&& info.logo == logo
            &&& info.group == group
            &&& info.title == title
        }),
{
    reveal_strlit("#EXTINF:");
    let line = channel_line(logo, group, title);
    lemma_channel_info(logo, group, title);
    lemma_trimmed_ends(title);
    assert(line.last() == title.last());
    lemma_trim_keeps(line);
    assert(line.subrange(0, 8) == "#EXTINF:"@);
    assert(line.skip(8) == channel_info(logo, group, title));
    assert(ls.push(line).drop_last() == ls);
}

/// A line of information without a comma says no title, and one without a key says
/// neither a group nor a logo.
pub proof fn law_what_is_not_said_is_unknown(info: Seq<char>)
    ensures
        !info.contains(',') ==> info_of(info).title.len() == 0,
        !info.contains('"') ==> info_of(info).group.len() == 0 && info_of(info).logo.len() == 0,
{
    reveal_strlit(",");
    reveal_strlit("=\"");
    assert(","@ == seq![',']);
    if !info.contains(',') {
        lemma_char_is_absent(info, ',');
    }
    if !info.contains('"') {
        lemma_no_attribute(info, "group-title"@);
        lemma_no_attribute(info, "tvg-logo"@);
    }
}

proof fn lemma_no_attribute(info: Seq<char>, key: Seq<char>)
    requires
        !info.contains('"'),
    ensures
        attribute(info, key) is None,
{
    reveal_strlit("=\"");
    let p = key + "=\""@;
    lemma_find(info, p);
    if contains(info, p) {
        let i = choose|i: int| #[trigger] matches_at(info, p, i);
        let n = p.len() as int;
        assert(info.subrange(i, i + n)[n - 1] == info[i + n - 1]);
        assert(info.contains(info[i + n - 1]));
    }
}

/// A stored list begins with its header and has two lines for each entry: one with what
/// is known of it, and below that its source.
pub proof fn law_stored_list_has_two_lines_each(es: Seq<Entry>, base: Option<Seq<char>>)
    requires
        forall|i: int| 0 <= i < es.len() ==> is_storable(#[trigger] es[i], base),
    ensures
        ({
            let ls = lines(m3u_text(es));
            &&& ls.len() == 1 + 2 * es.len()
            &&& ls[0] == "#EXTM3U"@
            &&& forall|i: int|
                0 <= i < es.len() ==> ls[2 * i + 2] == (#[trigger] es[i]).source && starts_with(
                    ls[2 * i + 1],
                    "#EXTINF:-1"@,
                )
        }),
        m3u_text(es).len() > 0 && m3u_text(es).last() == '\n',
    decreases es.len(),
{
    reveal_strlit("\n");
    reveal_strlit("#EXTM3U\n");
    reveal_strlit("#EXTM3U");
    reveal_strlit("#EXTINF:-1");
    reveal_strlit("#EXTINF:-1,");
    reveal_strlit("#EXTINF:-1 group-title=\"");
    let text = m3u_text(es);
    let ls = lines(text);
    if es.len() == 0 {
        let head = "#EXTM3U"@;
        let none = Seq::<char>::empty();
        assert(text == head + seq!['\n'] + none);
        lemma_first_line(head, none);
        assert(lines(none) == Seq::<Seq<char>>::empty());
        assert(ls == seq![head]);
    } else {
        let less = es.drop_last();
        let e = es.last();
        assert forall|i: int| 0 <= i < less.len() implies is_storable(#[trigger] less[i], base) by {
            assert(less[i] == es[i]);
        }
        law_stored_list_has_two_lines_each(less, base);
        assert(is_storable(es[es.len() - 1], base));
        let before = lines(m3u_text(less));
        lemma_lines_concat(m3u_text(less), entry_text(e));
        lemma_entry_lines(e, base);
        assert(ls == before + seq![info_line(e), e.source]);
        assert(info_line(e).subrange(0, 10) == "#EXTINF:-1"@);
        assert forall|i: int| 0 <= i < es.len() implies ls[2 * i + 2] == (#[trigger] es[i]).source
            && starts_with(ls[2 * i + 1], "#EXTINF:-1"@) by {
            if i < less.len() {
                assert(less[i] == es[i]);
                assert(ls[2 * i + 2] == before[2 * i + 2]);
                assert(ls[2 * i + 1] == before[2 * i + 1]);
            }
        }
    }
}

} // verus!
