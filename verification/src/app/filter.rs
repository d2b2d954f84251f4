//! Which entries of a playlist are shown.

use crate::lowercase::{to_unicode_lowercase, unicode_lowered};
use crate::playlist::item::{Entry, PlaylistItem, entries};
use crate::settings::{Settings, names};
use crate::text::{contains, from_chars, has_text, same_str, to_chars};
use crate::number::{digit_value, is_number, number_value};
use vstd::prelude::*;

verus! {

/// How many logos are asked for at a time.
pub const LOGO_LIMIT: usize = 200;

/// Whether an entry passes the filter: its title, in lower case, holds the text
/// that is searched; it is in the category; and it is a favourite where only
/// those are wanted.
pub open spec fn passes(
    title: Seq<char>,
    item_group: Seq<char>,
    is_favorite: bool,
    search: Seq<char>,
    group: Seq<char>,
    favorites_only: bool,
) -> bool {
    &&& group.len() == 0 || item_group == group
    &&& search.len() == 0 || contains(title, search)
    &&& !favorites_only || is_favorite
}

/// Whether an entry passes the filter. The title and the text that is searched
/// are in lower case.
pub fn passes_filter(
    title: &str,
    item_group: &str,
    is_favorite: bool,
    search: &str,
    group: &str,
    favorites_only: bool,
) -> (r: bool)
    ensures
        r == passes(title@, item_group@, is_favorite, search@, group@, favorites_only),
{
    let wanted = to_chars(group);
    let text = to_chars(title);
    let needle = to_chars(search);
    (wanted.len() == 0 || same_str(item_group, &wanted)) && (needle.len() == 0 || has_text(
        &text,
        search,
    )) && (!favorites_only || is_favorite)
}

/// Whether an entry is shown.
pub open spec fn is_shown(
    e: Entry,
    favorites: Seq<Seq<char>>,
    search: Seq<char>,
    group: Seq<char>,
    favorites_only: bool,
) -> bool {
    passes(
        unicode_lowered(e.title),
        e.group,
        favorites.contains(e.source),
        unicode_lowered(search),
        group,
        favorites_only,
    )
}

/// The places of the entries that are shown, among the first `n`.
pub open spec fn shown_places(
    items: Seq<Entry>,
    n: nat,
    favorites: Seq<Seq<char>>,
    search: Seq<char>,
    group: Seq<char>,
    favorites_only: bool,
) -> Seq<usize>
    decreases n,
{
    if n == 0 {
        seq![]
    } else {
        let less = shown_places(items, (n - 1) as nat, favorites, search, group, favorites_only);
        if is_shown(items[n - 1], favorites, search, group, favorites_only) {
            less.push((n - 1) as usize)
        } else {
            less
        }
    }
}

/// The places of the entries that are shown.
pub fn visible_entries(
    items: &Vec<PlaylistItem>,
    settings: &Settings,
    search: &str,
    group: &str,
    favorites_only: bool,
) -> (r: Vec<usize>)
    ensures
        r@ == shown_places(
            entries(items@),
            items@.len(),
            names(settings.favorites@),
            search@,
            group@,
            favorites_only,
        ),
{
    let needle = to_unicode_lowercase(search);
    let ghost all = entries(items@);
    let ghost favorites = names(settings.favorites@);
    let mut out: Vec<usize> = Vec::new();
    let mut i: usize = 0;
    while i < items.len()
        invariant
            i <= items@.len(),
            all == entries(items@),
            favorites == names(settings.favorites@),
            needle@ == unicode_lowered(search@),
            out@ == shown_places(all, i as nat, favorites, search@, group@, favorites_only),
        decreases items@.len() - i,
    {
        let item = &items[i];
        assert(all[i as int] == item@);
        let title = to_unicode_lowercase(item.title.as_str());
        let favorite: bool = settings.is_favorite(item.source.as_str());
        if passes_filter(
            title.as_str(),
            item.group.as_str(),
            favorite,
            needle.as_str(),
            group,
            favorites_only,
        ) {
            out.push(i);
        }
        i = i + 1;
    }
    out
}

/// What is shown are entries, in their order, and each of them once.
pub proof fn law_shown_places_ascend(
    items: Seq<Entry>,
    n: nat,
    favorites: Seq<Seq<char>>,
    search: Seq<char>,
    group: Seq<char>,
    favorites_only: bool,
)
    requires
        n <= items.len() <= usize::MAX,
    ensures
        ({
            let shown = shown_places(items, n, favorites, search, group, favorites_only);
            &&& forall|i: int| 0 <= i < shown.len() ==> (#[trigger] shown[i]) < n
            &&& forall|i: int, j: int|
                0 <= i < j < shown.len() ==> (#[trigger] shown[i]) < (#[trigger] shown[j])
        }),
    decreases n,
{
    if n > 0 {
        let m = (n - 1) as nat;
        law_shown_places_ascend(items, m, favorites, search, group, favorites_only);
        let less = shown_places(items, m, favorites, search, group, favorites_only);
        let shown = shown_places(items, n, favorites, search, group, favorites_only);
        assert forall|i: int| 0 <= i < shown.len() implies (#[trigger] shown[i]) < n by {
            if i < less.len() {
                assert(shown[i] == less[i]);
            }
        }
        assert forall|i: int, j: int| 0 <= i < j < shown.len() implies (#[trigger] shown[i]) < (
        #[trigger] shown[j]) by {
            assert(shown[i] == less[i]);
            if j < less.len() {
                assert(shown[j] == less[j]);
            }
        }
    }
}

// ---- Logos -----------------------------------------------------------------

/// Whether a logo has to be fetched.
pub open spec fn is_missing(
    logo: Seq<char>,
    cached: Seq<Seq<char>>,
    pending: Seq<Seq<char>>,
) -> bool {
    logo.len() > 0 && !cached.contains(logo) && !pending.contains(logo)
}

/// The logos that have to be fetched for the first `n` entries that are shown,
/// up to a limit.
pub open spec fn missing_logos(
    items: Seq<Entry>,
    shown: Seq<usize>,
    n: nat,
    cached: Seq<Seq<char>>,
    pending: Seq<Seq<char>>,
) -> Seq<Seq<char>>
    decreases n,
{
    if n == 0 {
        seq![]
    } else {
        let less = missing_logos(items, shown, (n - 1) as nat, cached, pending);
        let logo = items[shown[n - 1] as int].logo;
        if less.len() < LOGO_LIMIT && is_missing(logo, cached, pending) {
            less.push(logo)
        } else {
            less
        }
    }
}

/// Whether a text is in a list.
pub fn holds(list: &Vec<String>, text: &str) -> (r: bool)
    ensures
        r == names(list@).contains(text@),
{
    let wanted = to_chars(text);
    let ghost all = names(list@);
    let mut i: usize = 0;
    while i < list.len()
        invariant
            wanted@ == text@,
            i <= list@.len(),
            all == names(list@),
            forall|k: int| 0 <= k < i ==> #[trigger] all[k] != text@,
        decreases list@.len() - i,
    {
        assert(all[i as int] == list@[i as int]@);
        if same_str(list[i].as_str(), &wanted) {
            return true;
        }
        i = i + 1;
    }
    false
}

/// The logos that have to be fetched for the entries that are shown: those that
/// are neither there nor on their way, up to a limit.
pub fn logos_to_fetch(
    items: &Vec<PlaylistItem>,
    shown: &Vec<usize>,
    cached: &Vec<String>,
    pending: &Vec<String>,
) -> (r: Vec<String>)
    requires
        forall|i: int| 0 <= i < shown@.len() ==> (#[trigger] shown@[i]) < items@.len(),
    ensures
        names(r@) == missing_logos(
            entries(items@),
            shown@,
            shown@.len(),
            names(cached@),
            names(pending@),
        ),
{
    let ghost all = entries(items@);
    let mut out: Vec<String> = Vec::new();
    let mut i: usize = 0;
    assert(names(out@) =~= seq![]);
    while i < shown.len()
        invariant
            i <= shown@.len(),
            all == entries(items@),
            forall|i: int| 0 <= i < shown@.len() ==> (#[trigger] shown@[i]) < items@.len(),
            names(out@) == missing_logos(
                all,
                shown@,
                i as nat,
                names(cached@),
                names(pending@),
            ),
        decreases shown@.len() - i,
    {
        let ghost before = names(out@);
        let item = &items[shown[i]];
        assert(all[shown@[i as int] as int] == item@);
        assert(before.len() == out@.len());
        let logo = item.logo.as_str();
        let empty: bool = to_chars(logo).len() == 0;
        if out.len() < LOGO_LIMIT && !empty && !holds(cached, logo) && !holds(pending, logo) {
            out.push(item.logo.clone());
            assert(names(out@) =~= before.push(item.logo@));
        }
        i = i + 1;
    }
    out
}

/// The texts of `list` that are not in `pending`, each of them once.
pub open spec fn fresh(list: Seq<Seq<char>>, pending: Seq<Seq<char>>) -> Seq<Seq<char>>
    decreases list.len(),
{
    if list.len() == 0 {
        seq![]
    } else {
        let less = fresh(list.drop_last(), pending);
        if pending.contains(list.last()) || less.contains(list.last()) {
            less
        } else {
            less.push(list.last())
        }
    }
}

/// Takes note of the logos that are on their way, and says which ones have to
/// be asked for.
pub fn request_logos(pending: &mut Vec<String>, wanted: &Vec<String>) -> (r: Vec<String>)
    ensures
        names(r@) == fresh(names(wanted@), names(old(pending)@)),
        names(final(pending)@) == names(old(pending)@) + fresh(
            names(wanted@),
            names(old(pending)@),
        ),
{
    let ghost given = names(pending@);
    let ghost all = names(wanted@);
    let mut out: Vec<String> = Vec::new();
    let mut i: usize = 0;
    assert(names(out@) =~= seq![]);
    assert(names(pending@) =~= given + fresh(all.take(0), given));
    while i < wanted.len()
        invariant
            i <= wanted@.len(),
            all == names(wanted@),
            names(out@) == fresh(all.take(i as int), given),
            names(pending@) == given + fresh(all.take(i as int), given),
        decreases wanted@.len() - i,
    {
        let ghost less = fresh(all.take(i as int), given);
        let ghost url = wanted@[i as int]@;
        assert(all.take(i + 1).drop_last() == all.take(i as int));
        assert(all.take(i + 1).last() == url);
        proof {
            let p = given + less;
            if given.contains(url) {
                let k = choose|k: int| 0 <= k < given.len() && given[k] == url;
                assert(p[k] == url);
            }
            if less.contains(url) {
                let k = choose|k: int| 0 <= k < less.len() && less[k] == url;
                assert(p[given.len() + k] == url);
            }
            if p.contains(url) {
                let k = choose|k: int| 0 <= k < p.len() && p[k] == url;
                if k < given.len() {
                    assert(given[k] == url);
                } else {
                    assert(less[k - given.len()] == url);
                }
            }
        }
        if !holds(pending, wanted[i].as_str()) {
            let ghost waiting = names(pending@);
            pending.push(wanted[i].clone());
            out.push(wanted[i].clone());
            assert(names(out@) =~= less.push(url));
            assert(names(pending@) =~= waiting.push(url));
            assert(waiting.push(url) =~= given + less.push(url));
        }
        i = i + 1;
    }
    assert(all.take(wanted@.len() as int) == all);
    out
}

// ---- Names of cached logos --------------------------------------------------

/// The lower-case hexadecimal digit for `d`.
pub open spec fn hex_char(d: int) -> char {
    if d < 10 {
        (0x30 + d) as char
    } else {
        (0x61 + d - 10) as char
    }
}

/// The last `width` hexadecimal digits of `n`.
pub open spec fn hex_text(n: nat, width: nat) -> Seq<char>
    decreases width,
{
    if width == 0 {
        seq![]
    } else {
        hex_text(n / 16, (width - 1) as nat).push(hex_char(n as int % 16))
    }
}

/// The name under which a logo is cached: the hash of its address, in sixteen
/// hexadecimal digits.
pub fn logo_filename(hash: u64) -> (r: String)
    ensures
        r@ == hex_text(hash as nat, 16),
{
    let mut out: Vec<char> = Vec::new();
    push_hex(&mut out, hash, 16);
    assert(out@ =~= hex_text(hash as nat, 16));
    from_chars(&out)
}

/// Adds the last `width` hexadecimal digits of `n`.
fn push_hex(out: &mut Vec<char>, n: u64, width: usize)
    ensures
        final(out)@ == old(out)@ + hex_text(n as nat, width as nat),
    decreases width,
{
    if width > 0 {
        push_hex(out, n / 16, width - 1);
        let d: u8 = (n % 16) as u8;
        let c: char = if d < 10 {
            (0x30 + d) as char
        } else {
            (0x61 + (d - 10)) as char
        };
        out.push(c);
    }
}

/// Logos whose addresses have different hashes are cached under different
/// names.
pub proof fn law_logo_names_are_distinct(a: u64, b: u64)
    requires
        a != b,
    ensures
        hex_text(a as nat, 16) != hex_text(b as nat, 16),
{
    lemma_pow16();
    if hex_text(a as nat, 16) == hex_text(b as nat, 16) {
        lemma_hex_text_distinct(a as nat, b as nat, 16);
    }
}

/// What `width` hexadecimal digits can hold.
spec fn hex_limit(width: nat) -> nat
    decreases width,
{
    if width == 0 {
        1
    } else {
        16 * hex_limit((width - 1) as nat)
    }
}

proof fn lemma_pow16()
    ensures
        hex_limit(16) == 0x1_0000_0000_0000_0000,
{
    reveal_with_fuel(hex_limit, 17);
}

proof fn lemma_hex_text_distinct(a: nat, b: nat, width: nat)
    requires
        a < hex_limit(width),
        b < hex_limit(width),
        hex_text(a, width) == hex_text(b, width),
    ensures
        a == b,
    decreases width,
{
    if width > 0 {
        let x = hex_text(a / 16, (width - 1) as nat);
        let y = hex_text(b / 16, (width - 1) as nat);
        assert(hex_text(a, width).drop_last() == x);
        assert(hex_text(b, width).drop_last() == y);
        assert(hex_text(a, width).last() == hex_char(a as int % 16));
        assert(hex_text(b, width).last() == hex_char(b as int % 16));
        lemma_hex_text_distinct(a / 16, b / 16, (width - 1) as nat);
    }
}

// ---- Laws ------------------------------------------------------------------

/// An empty filter lets everything through. A category lets through what is in it, a
/// search what holds its text, and the wish for favourites only those; a filter of
/// several parts lets through what each of them does.
pub proof fn law_filter_parts_hold_together(
    title: Seq<char>,
    item_group: Seq<char>,
    is_favorite: bool,
    search: Seq<char>,
    group: Seq<char>,
)
    ensures
        passes(title, item_group, is_favorite, seq![], seq![], false),
        group.len() > 0 ==> (passes(title, item_group, is_favorite, seq![], group, false)
            <==> item_group == group),
        search.len() > 0 ==> (passes(title, item_group, is_favorite, search, seq![], false)
            <==> contains(title, search)),
        passes(title, item_group, is_favorite, seq![], seq![], true) <==> is_favorite,
        passes(title, item_group, is_favorite, search, group, true) <==> passes(
            title,
            item_group,
            is_favorite,
            search,
            seq![],
            false,
        ) && passes(title, item_group, is_favorite, seq![], group, false) && is_favorite,
{
}

/// Every entry that passes the filter is shown, and no other.
pub proof fn law_shown_places_are_all(
    items: Seq<Entry>,
    n: nat,
    favorites: Seq<Seq<char>>,
    search: Seq<char>,
    group: Seq<char>,
    favorites_only: bool,
    p: usize,
)
    requires
        n <= items.len() <= usize::MAX,
    ensures
        shown_places(items, n, favorites, search, group, favorites_only).contains(p) <==> p < n
            && passes(
            unicode_lowered(items[p as int].title),
            items[p as int].group,
            favorites.contains(items[p as int].source),
            unicode_lowered(search),
            group,
            favorites_only,
        ),
    decreases n,
{
    let all = shown_places(items, n, favorites, search, group, favorites_only);
    if n > 0 {
        let m = (n - 1) as nat;
        law_shown_places_are_all(items, m, favorites, search, group, favorites_only, p);
        let less = shown_places(items, m, favorites, search, group, favorites_only);
        if less.contains(p) {
            let k = choose|k: int| 0 <= k < less.len() && less[k] == p;
            assert(all[k] == p);
        }
        if all.contains(p) {
            let k = choose|k: int| 0 <= k < all.len() && all[k] == p;
            if k < less.len() {
                assert(less[k] == p);
            }
        }
        if p == m && is_shown(items[m as int], favorites, search, group, favorites_only) {
            assert(all[less.len() as int] == p);
        }
    }
}

/// A logo is asked for where an entry that is shown has it and it is neither cached
/// nor on its way, for up to two hundred at a time, and for no others.
pub proof fn law_missing_logos_are_asked_for(
    items: Seq<Entry>,
    shown: Seq<usize>,
    n: nat,
    cached: Seq<Seq<char>>,
    pending: Seq<Seq<char>>,
    logo: Seq<char>,
)
    requires
        n <= shown.len(),
    ensures
        ({
            let asked = missing_logos(items, shown, n, cached, pending);
            &&& asked.len() <= 200
            &&& asked.contains(logo) ==> logo.len() > 0 && !cached.contains(logo)
                && !pending.contains(logo) && exists|i: int|
                0 <= i < n && items[#[trigger] shown[i] as int].logo == logo
            &&& asked.len() < 200 && logo.len() > 0 && !cached.contains(logo) && !pending.contains(
                logo,
            ) && (exists|i: int| 0 <= i < n && items[#[trigger] shown[i] as int].logo == logo)
                ==> asked.contains(logo)
        }),
    decreases n,
{
    let asked = missing_logos(items, shown, n, cached, pending);
    if n > 0 {
        let m = (n - 1) as nat;
        law_missing_logos_are_asked_for(items, shown, m, cached, pending, logo);
        let less = missing_logos(items, shown, m, cached, pending);
        let last = items[shown[n - 1] as int].logo;
        if less.contains(logo) {
            let k = choose|k: int| 0 <= k < less.len() && less[k] == logo;
            assert(asked[k] == logo);
            let i = choose|i: int| 0 <= i < m && items[#[trigger] shown[i] as int].logo == logo;
            assert(items[shown[i] as int].logo == logo);
        } else if asked.contains(logo) {
            let k = choose|k: int| 0 <= k < asked.len() && asked[k] == logo;
            if k < less.len() {
                assert(less[k] == logo);
            }
            assert(items[shown[n - 1] as int].logo == logo);
        }
        if asked.len() < 200 && is_missing(logo, cached, pending) && (exists|i: int|
            0 <= i < n && items[#[trigger] shown[i] as int].logo == logo) {
            let i = choose|i: int| 0 <= i < n && items[#[trigger] shown[i] as int].logo == logo;
            if i < n - 1 {
                assert(items[shown[i] as int].logo == logo);
                assert(less.contains(logo));
            } else {
                assert(last == logo);
                assert(asked[less.len() as int] == logo);
            }
        }
    }
}

/// What is asked for is what is wanted and not yet on its way, each once.
pub proof fn law_nothing_is_asked_for_twice(
    list: Seq<Seq<char>>,
    pending: Seq<Seq<char>>,
    name: Seq<char>,
)
    ensures
        fresh(list, pending).contains(name) <==> list.contains(name) && !pending.contains(name),
        fresh(list, pending).no_duplicates(),
    decreases list.len(),
{
    let all = fresh(list, pending);
    if list.len() > 0 {
        let rest = list.drop_last();
        let last = list.last();
        law_nothing_is_asked_for_twice(rest, pending, name);
        law_nothing_is_asked_for_twice(rest, pending, last);
        let less = fresh(rest, pending);
        if rest.contains(name) {
            let k = choose|k: int| 0 <= k < rest.len() && rest[k] == name;
            assert(list[k] == name);
        }
        if list.contains(name) {
            let k = choose|k: int| 0 <= k < list.len() && list[k] == name;
            if k < rest.len() {
                assert(rest[k] == name);
            }
        }
        assert(list[list.len() - 1] == last);
        if less.contains(name) {
            let k = choose|k: int| 0 <= k < less.len() && less[k] == name;
            assert(all[k] == name);
        }
        if all.contains(name) {
            let k = choose|k: int| 0 <= k < all.len() && all[k] == name;
            if k < less.len() {
                assert(less[k] == name);
            }
        }
        if !(pending.contains(last) || less.contains(last)) {
            assert(all[less.len() as int] == last);
            assert forall|i: int, j: int| 0 <= i < all.len() && 0 <= j < all.len() && i
                != j implies all[i] != all[j] by {
                if i < less.len() && j < less.len() {
                    assert(less[i] != less[j]);
                } else if i < less.len() {
                    assert(less.contains(less[i]));
                } else {
                    assert(less.contains(less[j]));
                }
            }
        }
    }
}

/// The name of a cached logo has sixteen digits, and they write its hash.
pub proof fn law_logo_name_writes_the_hash(hash: u64)
    ensures
        hex_text(hash as nat, 16).len() == 16,
        is_number(hex_text(hash as nat, 16), 16),
        number_value(hex_text(hash as nat, 16), 16) == hash,
{
    lemma_pow16();
    lemma_hex_value(hash as nat, 16);
}

proof fn lemma_hex_value(n: nat, width: nat)
    requires
        n < hex_limit(width),
    ensures
        hex_text(n, width).len() == width,
        forall|i: int|
            0 <= i < hex_text(n, width).len() ==> digit_value(#[trigger] hex_text(n, width)[i])
                < 16,
        number_value(hex_text(n, width), 16) == n,
    decreases width,
{
    let t = hex_text(n, width);
    if width > 0 {
        let less = hex_text(n / 16, (width - 1) as nat);
        lemma_hex_value(n / 16, (width - 1) as nat);
        assert(t.drop_last() == less);
        assert(digit_value(hex_char(n as int % 16)) == n % 16);
        assert forall|i: int| 0 <= i < t.len() implies digit_value(#[trigger] t[i]) < 16 by {
            if i < less.len() {
                assert(t[i] == less[i]);
            }
        }
    }
}

} // verus!
