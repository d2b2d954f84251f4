//! The markup inside subtitle texts: HTML tags and ASS override blocks.

use crate::number::{
    decimal, digit_value, is_ascii_digit, is_digit, is_number, law_decimal_reads_back, number_value,
    parse_unsigned_digits, read_number, to_digit,
};
use crate::text::{
    find, find_text, from_chars, has_prefix, join, lemma_find, lemma_find_is, lemma_run_is,
    matches_at, part, run, splitn, splitn_text, starts_with, texts, to_chars, trim, trimmed,
};
use crate::text_facts::lemma_splitn_join;
use vstd::prelude::*;

verus! {

/// How a cue is displayed, from its ASS override tags. Plain text subtitles
/// have the default style.
#[derive(Debug, Clone, Copy, PartialEq, Eq, Structural)]
pub struct CueStyle {
    /// Placement as on a numeric keypad: 1 is bottom left, 9 is top right.
    pub align: u8,
    pub bold: bool,
    pub italic: bool,
    /// Primary colour `0xRRGGBB`, if one is given.
    pub color: Option<u32>,
}

/// Bottom centre, neither bold nor italic, no colour.
pub open spec fn default_style() -> CueStyle {
    CueStyle { align: 2, bold: false, italic: false, color: None }
}

impl Default for CueStyle {
    fn default() -> (style: Self)
        ensures
            style == default_style(),
    {
        CueStyle { align: 2, bold: false, italic: false, color: None }
    }
}

// ---- HTML tags -------------------------------------------------------------

/// What is left of `s` without its `<..>` tags, and whether a tag is still
/// open at its end.
pub open spec fn html_stripped(s: Seq<char>) -> (Seq<char>, bool)
    decreases s.len(),
{
    if s.len() == 0 {
        (seq![], false)
    } else {
        let (out, open) = html_stripped(s.drop_last());
        let c = s.last();
        if c == '<' {
            (out, true)
        } else if c == '>' && open {
            (out, false)
        } else if open {
            (out, true)
        } else {
            (out.push(c), false)
        }
    }
}

/// Removes the simple HTML tags (`<i>`, `<b>`) of a text.
pub fn strip_html_tags(s: &[char]) -> (r: Vec<char>)
    ensures
        r@ == html_stripped(s@).0,
{
    let mut out: Vec<char> = Vec::new();
    let mut in_tag: bool = false;
    let mut i: usize = 0;
    while i < s.len()
        invariant
            i <= s@.len(),
            (out@, in_tag) == html_stripped(s@.take(i as int)),
        decreases s@.len() - i,
    {
        let c: char = s[i];
        assert(s@.take(i + 1).drop_last() == s@.take(i as int));
        if c == '<' {
            in_tag = true;
        } else if c == '>' && in_tag {
            in_tag = false;
        } else if !in_tag {
            out.push(c);
        }
        i = i + 1;
    }
    assert(s@.take(s@.len() as int) == s@);
    out
}

// ---- ASS text --------------------------------------------------------------

/// What follows the first `}` of `s`; nothing where there is none.
pub open spec fn after_brace(s: Seq<char>) -> Seq<char>
    decreases s.len(),
{
    if s.len() == 0 {
        s
    } else if s[0] == '}' {
        s.skip(1)
    } else {
        after_brace(s.skip(1))
    }
}

/// What follows a brace is no longer than the text.
pub proof fn lemma_after_brace(s: Seq<char>)
    ensures
        after_brace(s).len() <= s.len(),
    decreases s.len(),
{
    if s.len() > 0 && s[0] != '}' {
        lemma_after_brace(s.skip(1));
    }
}

/// `s` without its `{..}` blocks, with `\N` and `\n` as line breaks and `\h` as
/// a space.
pub open spec fn ass_plain(s: Seq<char>) -> Seq<char>
    decreases s.len(),
{
    proof {
        lemma_after_brace(s.skip(1));
    }
    if s.len() == 0 {
        seq![]
    } else if s[0] == '{' {
        ass_plain(after_brace(s.skip(1)))
    } else if s.len() > 1 && s[0] == '\\' && (s[1] == 'N' || s[1] == 'n') {
        seq!['\n'] + ass_plain(s.skip(2))
    } else if s.len() > 1 && s[0] == '\\' && s[1] == 'h' {
        seq![' '] + ass_plain(s.skip(2))
    } else {
        seq![s[0]] + ass_plain(s.skip(1))
    }
}

/// The text of an ASS line, without style tags.
pub fn clean_ass_chars(s: &[char]) -> (r: Vec<char>)
    ensures
        r@ == trim(ass_plain(s@)),
{
    let mut out: Vec<char> = Vec::new();
    let mut i: usize = 0;
    assert(s@.skip(0) == s@);
    while i < s.len()
        invariant
            i <= s@.len(),
            out@ + ass_plain(s@.skip(i as int)) == ass_plain(s@),
        decreases s@.len() - i,
    {
        let ghost rest = s@.skip(i as int);
        let ghost before = out@;
        assert(rest.skip(1) == s@.skip(i + 1));
        assert(i + 1 < s@.len() ==> rest.skip(2) == s@.skip(i + 2));
        if s[i] == '{' {
            let mut j: usize = i + 1;
            let mut closed: bool = false;
            while j < s.len() && !closed
                invariant
                    i < j <= s@.len(),
                    after_brace(s@.skip(i + 1)) == (if closed {
                        s@.skip(j as int)
                    } else {
                        after_brace(s@.skip(j as int))
                    }),
                decreases s@.len() - j,
            {
                assert(s@.skip(j as int).skip(1) == s@.skip(j + 1));
                if s[j] == '}' {
                    closed = true;
                }
                j = j + 1;
            }
            assert(after_brace(s@.skip(i + 1)) == s@.skip(j as int));
            i = j;
        } else if s[i] == '\\' && i + 1 < s.len() && (s[i + 1] == 'N' || s[i + 1] == 'n') {
            out.push('\n');
            i = i + 2;
            assert(out@ + ass_plain(s@.skip(i as int)) == before + (seq!['\n'] + ass_plain(
                s@.skip(i as int),
            )));
        } else if s[i] == '\\' && i + 1 < s.len() && s[i + 1] == 'h' {
            out.push(' ');
            i = i + 2;
            assert(out@ + ass_plain(s@.skip(i as int)) == before + (seq![' '] + ass_plain(
                s@.skip(i as int),
            )));
        } else {
            let c: char = s[i];
            out.push(c);
            i = i + 1;
            assert(out@ + ass_plain(s@.skip(i as int)) == before + (seq![c] + ass_plain(
                s@.skip(i as int),
            )));
        }
    }
    assert(out@ + ass_plain(s@.skip(i as int)) == out@);
    let t = trimmed(&out);
    let mut r: Vec<char> = Vec::new();
    crate::text::push_all(&mut r, t);
    r
}

/// Removes the ASS style tags (`{\an8}`, `{\i1}`) of a text and turns `\N` and
/// `\n` into line breaks.
pub fn clean_ass_text(text: &str) -> (r: String)
    ensures
        r@ == trim(ass_plain(text@)),
{
    let chars = to_chars(text);
    from_chars(&clean_ass_chars(&chars))
}

// ---- ASS styles ------------------------------------------------------------

/// The contents of the `{..}` blocks of `s`, and whether the last one is still
/// open at its end.
pub open spec fn override_blocks(s: Seq<char>) -> (Seq<Seq<char>>, bool)
    decreases s.len(),
{
    if s.len() == 0 {
        (seq![], false)
    } else {
        let (blocks, open) = override_blocks(s.drop_last());
        let c = s.last();
        if c == '{' {
            if open {
                (blocks, true)
            } else {
                (blocks.push(seq![]), true)
            }
        } else if c == '}' {
            (blocks, false)
        } else if open {
            (blocks.drop_last().push(blocks.last().push(c)), true)
        } else {
            (blocks, false)
        }
    }
}

/// Whether `tags` begin with `tag` and a number: a tag whose name only begins like
/// `tag` is another one, and a tag without a number gives nothing.
pub open spec fn begins_with_tag(tags: Seq<char>, tag: Seq<char>) -> bool {
    starts_with(tags, tag) && tag.len() < tags.len() && is_digit(tags[tag.len() as int])
}

/// The decimal number right after the first `tag` in `tags` that has one.
pub open spec fn number_after(tags: Seq<char>, tag: Seq<char>) -> Option<nat>
    decreases tags.len(),
{
    if tags.len() == 0 {
        None
    } else if begins_with_tag(tags, tag) {
        let rest = tags.skip(tag.len() as int);
        parse_unsigned_digits(
            rest.take(run(rest, |c: char| is_digit(c)) as int),
            i64::MAX as nat,
        )
    } else {
        number_after(tags.skip(1), tag)
    }
}

/// The hexadecimal digits right after the first `marker` in `tags`; none where
/// the marker is not there.
pub open spec fn hex_after(tags: Seq<char>, marker: Seq<char>) -> Seq<char> {
    match find(tags, marker) {
        None => seq![],
        Some(i) => {
            let rest = tags.skip(i + marker.len());
            rest.take(run(rest, |c: char| digit_value(c) < 16) as int)
        },
    }
}

/// The colour `&Hbbggrr&` after `\1c` or, failing that, after `\c`.
pub open spec fn ass_color(tags: Seq<char>) -> Option<nat> {
    let first = hex_after(tags, "\\1c&H"@);
    let hex = if first.len() > 0 {
        first
    } else {
        hex_after(tags, "\\c&H"@)
    };
    if is_number(hex, 16) && number_value(hex, 16) <= u32::MAX {
        Some(number_value(hex, 16))
    } else {
        None
    }
}

/// `0xRRGGBB` for `0xBBGGRR`; what is above the three bytes is dropped.
pub open spec fn swapped_color(bgr: int) -> int {
    (bgr % 256) * 65536 + (bgr / 256 % 256) * 256 + bgr / 65536 % 256
}

/// The keypad placement for the number of a legacy `\a` tag.
pub open spec fn legacy_align(n: nat) -> u8 {
    if n == 1 {
        1
    } else if n == 2 {
        2
    } else if n == 3 {
        3
    } else if n == 5 {
        7
    } else if n == 6 {
        8
    } else if n == 7 {
        9
    } else if n == 9 {
        4
    } else if n == 10 {
        5
    } else if n == 11 {
        6
    } else {
        2
    }
}

/// The placement that `tags` ask for: `\an`, or else the legacy `\a`.
pub open spec fn tag_align(tags: Seq<char>) -> u8 {
    match number_after(tags, "\\an"@) {
        Some(n) => if 1 <= n <= 9 {
            n as u8
        } else {
            2
        },
        None => match number_after(tags, "\\a"@) {
            Some(n) => legacy_align(n),
            None => 2,
        },
    }
}

/// Whether `tags` give anything of a style.
pub open spec fn is_significant(tags: Seq<char>) -> bool {
    ||| number_after(tags, "\\an"@) is Some
    ||| number_after(tags, "\\a"@) is Some
    ||| number_after(tags, "\\b"@) is Some
    ||| number_after(tags, "\\i"@) is Some
    ||| ass_color(tags) is Some
}

/// The style that the tags of a block give.
pub open spec fn block_style(tags: Seq<char>) -> CueStyle {
    CueStyle {
        align: tag_align(tags),
        bold: number_after(tags, "\\b"@) matches Some(v) && v != 0,
        italic: number_after(tags, "\\i"@) matches Some(v) && v != 0,
        color: match ass_color(tags) {
            Some(bgr) => Some(swapped_color(bgr as int) as u32),
            None => None,
        },
    }
}

/// The style of the first block that gives anything of one.
pub open spec fn first_style(blocks: Seq<Seq<char>>) -> CueStyle
    decreases blocks.len(),
{
    if blocks.len() == 0 {
        default_style()
    } else if is_significant(blocks[0]) {
        block_style(blocks[0])
    } else {
        first_style(blocks.skip(1))
    }
}

/// The style that the override tags of an ASS text give: that of its first block
/// with any.
pub open spec fn ass_style(raw: Seq<char>) -> CueStyle {
    first_style(override_blocks(raw).0)
}

/// The characters of each block.
spec fn contents(v: Seq<Vec<char>>) -> Seq<Seq<char>> {
    Seq::new(v.len(), |i: int| v[i]@)
}

/// The contents of the `{..}` blocks of `s`.
fn collect_blocks(s: &[char]) -> (r: Vec<Vec<char>>)
    ensures
        contents(r@) == override_blocks(s@).0,
{
    let mut blocks: Vec<Vec<char>> = Vec::new();
    let mut current: Vec<char> = Vec::new();
    let mut open: bool = false;
    let mut i: usize = 0;
    assert(contents(blocks@) =~= override_blocks(s@.take(0)).0);
    while i < s.len()
        invariant
            i <= s@.len(),
            open == override_blocks(s@.take(i as int)).1,
            open ==> contents(blocks@).push(current@) == override_blocks(s@.take(i as int)).0,
            !open ==> contents(blocks@) == override_blocks(s@.take(i as int)).0,
        decreases s@.len() - i,
    {
        let c: char = s[i];
        assert(s@.take(i + 1).drop_last() == s@.take(i as int));
        let ghost before = contents(blocks@);
        let ghost held = current@;
        if c == '{' {
            if !open {
                open = true;
                current = Vec::new();
                assert(before.push(current@) =~= before.push(seq![]));
            }
        } else if c == '}' {
            if open {
                open = false;
                blocks.push(current);
                assert(contents(blocks@) =~= before.push(held));
                current = Vec::new();
            }
        } else if open {
            current.push(c);
            assert(before.push(held).drop_last() =~= before);
            assert(current@ =~= held.push(c));
        }
        i = i + 1;
    }
    assert(s@.take(s@.len() as int) == s@);
    if open {
        let ghost before = contents(blocks@);
        let ghost held = current@;
        blocks.push(current);
        assert(contents(blocks@) =~= before.push(held));
    }
    blocks
}

/// The decimal number at the beginning of `s`.
fn leading_number(s: &[char]) -> (r: Option<u64>)
    ensures
        r matches Some(v) ==> parse_unsigned_digits(
            s@.take(run(s@, |c: char| is_digit(c)) as int),
            i64::MAX as nat,
        ) == Some(v as nat),
        r is None ==> parse_unsigned_digits(
            s@.take(run(s@, |c: char| is_digit(c)) as int),
            i64::MAX as nat,
        ) is None,
{
    let mut k: usize = 0;
    while k < s.len() && is_ascii_digit(s[k])
        invariant
            k <= s@.len(),
            forall|i: int| 0 <= i < k ==> is_digit(#[trigger] s@[i]),
        decreases s@.len() - k,
    {
        k = k + 1;
    }
    proof {
        lemma_run_is(s@, |c: char| is_digit(c), k as nat);
    }
    let digits = part(s, 0, k);
    assert(digits@ == s@.take(k as int));
    read_number(digits, 10, 0x7fff_ffff_ffff_ffff)
}

/// The decimal number right after the first `tag` in `tags` that has one.
fn capture_after(tags: &[char], tag: &str) -> (r: Option<u64>)
    ensures
        r matches Some(v) ==> number_after(tags@, tag@) == Some(v as nat),
        r is None ==> number_after(tags@, tag@) is None,
{
    let n: usize = tags.len();
    let width: usize = to_chars(tag).len();
    let mut i: usize = 0;
    assert(tags@.skip(0) == tags@);
    while i < n
        invariant
            i <= n,
            n == tags@.len(),
            width == tag@.len(),
            number_after(tags@, tag@) == number_after(tags@.skip(i as int), tag@),
        decreases n - i,
    {
        let rest = part(tags, i, n);
        assert(rest@ == tags@.skip(i as int));
        if has_prefix(rest, tag) && width < rest.len() && is_ascii_digit(rest[width]) {
            let end: usize = rest.len();
            let number = part(rest, width, end);
            assert(number@ == rest@.skip(width as int));
            return leading_number(number);
        }
        assert(tags@.skip(i as int).skip(1) == tags@.skip(i + 1));
        i = i + 1;
    }
    None
}

/// The hexadecimal digits right after the first `marker` in `tags`.
fn capture_hex<'a>(tags: &'a [char], marker: &str) -> (r: &'a [char])
    ensures
        r@ == hex_after(tags@, marker@),
{
    let marker = to_chars(marker);
    match find_text(tags, &marker) {
        None => part(tags, 0, 0),
        Some(pos) => {
            let n: usize = tags.len();
            let rest = part(tags, pos + marker.len(), n);
            assert(rest@ == tags@.skip(pos + marker@.len()));
            let mut k: usize = 0;
            while k < rest.len() && to_digit(rest[k]) < 16
                invariant
                    k <= rest@.len(),
                    forall|i: int| 0 <= i < k ==> digit_value(#[trigger] rest@[i]) < 16,
                decreases rest@.len() - k,
            {
                k = k + 1;
            }
            proof {
                lemma_run_is(rest@, |c: char| digit_value(c) < 16, k as nat);
            }
            let hex = part(rest, 0, k);
            assert(hex@ == rest@.take(k as int));
            hex
        },
    }
}

/// The colour `&Hbbggrr&` after `\1c` or `\c`.
fn capture_ass_color(tags: &[char]) -> (r: Option<u32>)
    ensures
        r matches Some(v) ==> ass_color(tags@) == Some(v as nat),
        r is None ==> ass_color(tags@) is None,
{
    let first = capture_hex(tags, "\\1c&H");
    let hex = if first.len() > 0 {
        first
    } else {
        capture_hex(tags, "\\c&H")
    };
    match read_number(hex, 16, 0xffff_ffff) {
        Some(v) => Some(v as u32),
        None => None,
    }
}

/// The style that the tags of a block give, where they give anything of one.
fn style_of_block(tags: &[char]) -> (r: Option<CueStyle>)
    ensures
        r == (if is_significant(tags@) {
            Some(block_style(tags@))
        } else {
            None
        }),
{
    let keypad = capture_after(tags, "\\an");
    let legacy = capture_after(tags, "\\a");
    let weight = capture_after(tags, "\\b");
    let slant = capture_after(tags, "\\i");
    let bgr = capture_ass_color(tags);
    if keypad.is_none() && legacy.is_none() && weight.is_none() && slant.is_none()
        && bgr.is_none() {
        return None;
    }
    let align: u8 = match keypad {
        Some(n) => if 1 <= n && n <= 9 {
            n as u8
        } else {
            2
        },
        None => match legacy {
            Some(n) => if n == 1 {
                1
            } else if n == 2 {
                2
            } else if n == 3 {
                3
            } else if n == 5 {
                7
            } else if n == 6 {
                8
            } else if n == 7 {
                9
            } else if n == 9 {
                4
            } else if n == 10 {
                5
            } else if n == 11 {
                6
            } else {
                2
            },
            None => 2,
        },
    };
    let bold: bool = match weight {
        Some(v) => v != 0,
        None => false,
    };
    let italic: bool = match slant {
        Some(v) => v != 0,
        None => false,
    };
    let color: Option<u32> = match bgr {
        Some(n) => {
            let rgb: u32 = (n % 256) * 65536 + (n / 256 % 256) * 256 + n / 65536 % 256;
            Some(rgb)
        },
        None => None,
    };
    Some(CueStyle { align, bold, italic, color })
}

/// The style that the override tags of an ASS text give.
pub fn ass_style_of(raw: &[char]) -> (style: CueStyle)
    ensures
        style == ass_style(raw@),
{
    let blocks = collect_blocks(raw);
    let ghost all = contents(blocks@);
    let mut i: usize = 0;
    assert(all.skip(0) =~= all);
    while i < blocks.len()
        invariant
            i <= blocks@.len(),
            all == contents(blocks@),
            all == override_blocks(raw@).0,
            first_style(all.skip(i as int)) == first_style(all),
        decreases blocks@.len() - i,
    {
        assert(all.skip(i as int)[0] == blocks@[i as int]@);
        assert(all.skip(i as int).skip(1) =~= all.skip(i + 1));
        match style_of_block(&blocks[i]) {
            Some(style) => {
                return style;
            },
            None => {},
        }
        i = i + 1;
    }
    CueStyle::default()
}

/// The style that the override tags of an ASS text (`{\an8\b1\i1\c&Hxxxxxx&}`)
/// give: only its first block that gives anything counts. Unknown tags are ignored,
/// also those whose names begin like that of a known one (`\bord`, `\iclip`).
pub fn parse_ass_style(raw: &str) -> (style: CueStyle)
    ensures
        style == ass_style(raw@),
{
    let chars = to_chars(raw);
    ass_style_of(&chars)
}

// ---- Embedded ASS lines ----------------------------------------------------

/// The text field of an embedded ASS line, the ninth; the whole line where
/// there are fewer.
pub open spec fn embedded_text(payload: Seq<char>) -> Seq<char> {
    let fields = splitn(payload, 9, seq![',']);
    if fields.len() > 8 {
        fields[8]
    } else {
        payload
    }
}

/// The text field of an embedded ASS line.
fn embedded_field<'a>(payload: &'a [char]) -> (r: &'a [char])
    ensures
        r@ == embedded_text(payload@),
{
    let comma: Vec<char> = vec![','];
    assert(comma@ == seq![',']);
    let fields = splitn_text(payload, 9, &comma);
    assert(texts(fields@).len() == fields@.len());
    if fields.len() > 8 {
        assert(fields@[8]@ == texts(fields@)[8]);
        fields[8]
    } else {
        payload
    }
}

/// The text of an embedded ASS line
/// (`ReadOrder,Layer,Style,Name,MarginL,MarginR,MarginV,Effect,Text`).
pub fn embedded_ass_to_text(payload: &str) -> (r: String)
    ensures
        r@ == trim(ass_plain(embedded_text(payload@))),
{
    let chars = to_chars(payload);
    from_chars(&clean_ass_chars(embedded_field(&chars)))
}

/// The text of an embedded ASS line, with the style that its tags give.
pub fn embedded_ass_to_styled(payload: &str) -> (r: (String, CueStyle))
    ensures
        r.0@ == trim(ass_plain(embedded_text(payload@))),
        r.1 == ass_style(embedded_text(payload@)),
{
    let chars = to_chars(payload);
    let field = embedded_field(&chars);
    (from_chars(&clean_ass_chars(field)), ass_style_of(field))
}

// ---- Laws ------------------------------------------------------------------

/// Text without tags stays as it is.
pub proof fn law_text_without_tags_stays(s: Seq<char>)
    requires
        !s.contains('<'),
    ensures
        html_stripped(s) == (s, false),
    decreases s.len(),
{
    if s.len() > 0 {
        let less = s.drop_last();
        assert(s.contains(s.last()));
        if less.contains('<') {
            let k = choose|k: int| 0 <= k < less.len() && less[k] == '<';
            assert(s.contains(s[k]));
        }
        law_text_without_tags_stays(less);
        assert(less.push(s.last()) == s);
    }
}

/// A tag goes, with all that stands in it, and the text around it stays.
pub proof fn law_tags_are_taken_out(a: Seq<char>, tag: Seq<char>, b: Seq<char>)
    requires
        !a.contains('<'),
        !tag.contains('>'),
    ensures
        html_stripped(a + seq!['<'] + tag + seq!['>'] + b).0 == a + html_stripped(b).0,
        html_stripped(a + seq!['<'] + tag).0 == a,
{
    law_text_without_tags_stays(a);
    lemma_open_tag(a, tag);
    let head = a + seq!['<'] + tag;
    let closed = head + seq!['>'];
    assert(closed.drop_last() == head);
    lemma_after_tag(closed, a, b);
}

proof fn lemma_open_tag(a: Seq<char>, tag: Seq<char>)
    requires
        html_stripped(a) == (a, false),
        !tag.contains('>'),
    ensures
        html_stripped(a + seq!['<'] + tag) == (a, true),
    decreases tag.len(),
{
    let s = a + seq!['<'] + tag;
    if tag.len() == 0 {
        assert(s.drop_last() == a);
    } else {
        let less = tag.drop_last();
        assert(tag.contains(tag.last()));
        if less.contains('>') {
            let k = choose|k: int| 0 <= k < less.len() && less[k] == '>';
            assert(tag.contains(tag[k]));
        }
        lemma_open_tag(a, less);
        assert(s.drop_last() == a + seq!['<'] + less);
    }
}

proof fn lemma_after_tag(head: Seq<char>, out: Seq<char>, b: Seq<char>)
    requires
        html_stripped(head) == (out, false),
    ensures
        html_stripped(head + b).0 == out + html_stripped(b).0,
        html_stripped(head + b).1 == html_stripped(b).1,
    decreases b.len(),
{
    let s = head + b;
    if b.len() == 0 {
        assert(s == head);
    } else {
        lemma_after_tag(head, out, b.drop_last());
        assert(s.drop_last() == head + b.drop_last());
        assert(s.last() == b.last());
    }
}

/// Whether a text holds nothing that means something in an ASS text.
pub open spec fn is_ass_plain(s: Seq<char>) -> bool {
    !s.contains('{') && !s.contains('\\')
}

/// Plain ASS text stays as it is, and so does what follows it.
proof fn lemma_plain_before(a: Seq<char>, b: Seq<char>)
    requires
        is_ass_plain(a),
    ensures
        ass_plain(a + b) == a + ass_plain(b),
    decreases a.len(),
{
    if a.len() == 0 {
        assert(a + b == b);
    } else {
        let rest = a.skip(1);
        assert(a.contains(a[0]));
        assert(is_ass_plain(rest)) by {
            if rest.contains('{') {
                let k = choose|k: int| 0 <= k < rest.len() && rest[k] == '{';
                assert(a.contains(a[k + 1]));
            }
            if rest.contains('\\') {
                let k = choose|k: int| 0 <= k < rest.len() && rest[k] == '\\';
                assert(a.contains(a[k + 1]));
            }
        }
        lemma_plain_before(rest, b);
        assert((a + b).skip(1) == rest + b);
        assert(seq![a[0]] + (rest + ass_plain(b)) == a + ass_plain(b));
    }
}

/// What follows a block that is closed.
proof fn lemma_block_ends(tags: Seq<char>, b: Seq<char>)
    requires
        !tags.contains('}'),
    ensures
        after_brace(tags + seq!['}'] + b) == b,
    decreases tags.len(),
{
    let s = tags + seq!['}'] + b;
    if tags.len() == 0 {
        assert(s.skip(1) == b);
    } else {
        let rest = tags.skip(1);
        assert(tags.contains(tags[0]));
        if rest.contains('}') {
            let k = choose|k: int| 0 <= k < rest.len() && rest[k] == '}';
            assert(tags.contains(tags[k + 1]));
        }
        lemma_block_ends(rest, b);
        assert(s.skip(1) == rest + seq!['}'] + b);
    }
}

/// Nothing follows a block that is not closed.
proof fn lemma_block_is_open(tags: Seq<char>)
    requires
        !tags.contains('}'),
    ensures
        after_brace(tags).len() == 0,
    decreases tags.len(),
{
    if tags.len() > 0 {
        let rest = tags.skip(1);
        assert(tags.contains(tags[0]));
        if rest.contains('}') {
            let k = choose|k: int| 0 <= k < rest.len() && rest[k] == '}';
            assert(tags.contains(tags[k + 1]));
        }
        lemma_block_is_open(rest);
    }
}

/// In an ASS text plain text stays, a block of tags goes, `\N` and `\n` break the
/// line, and `\h` is a space.
pub proof fn law_ass_text_is_cleaned(a: Seq<char>, tags: Seq<char>, b: Seq<char>)
    requires
        is_ass_plain(a),
        !tags.contains('}'),
    ensures
        ass_plain(a) == a,
        ass_plain(a + seq!['{'] + tags + seq!['}'] + b) == a + ass_plain(b),
        ass_plain(a + seq!['{'] + tags) == a,
        ass_plain(a + seq!['\\', 'N'] + b) == a + seq!['\n'] + ass_plain(b),
        ass_plain(a + seq!['\\', 'n'] + b) == a + seq!['\n'] + ass_plain(b),
        ass_plain(a + seq!['\\', 'h'] + b) == a + seq![' '] + ass_plain(b),
{
    let none = Seq::<char>::empty();
    lemma_plain_before(a, none);
    assert(ass_plain(none) == none);
    assert(a + none == a);
    let open = seq!['{'] + tags;
    assert(a + seq!['{'] + tags == a + open);
    lemma_plain_before(a, open);
    assert(open.skip(1) == tags);
    lemma_block_is_open(tags);
    assert(after_brace(tags) == none);
    assert(ass_plain(open) == none);
    let block = seq!['{'] + (tags + seq!['}'] + b);
    assert(a + seq!['{'] + tags + seq!['}'] + b == a + block);
    lemma_plain_before(a, block);
    assert(block.skip(1) == tags + seq!['}'] + b);
    lemma_block_ends(tags, b);
    assert forall|c: char| c == 'N' || c == 'n' || c == 'h' implies ass_plain(
        a + #[trigger] seq!['\\', c] + b,
    ) == a + seq![if c == 'h' { ' ' } else { '\n' }] + ass_plain(b) by {
        let mark = seq!['\\', c];
        assert(a + mark + b == a + (mark + b));
        lemma_plain_before(a, mark + b);
        assert((mark + b).skip(2) == b);
        let d = if c == 'h' { ' ' } else { '\n' };
        assert(ass_plain(mark + b) == seq![d] + ass_plain(b));
        assert(a + (seq![d] + ass_plain(b)) == a + seq![d] + ass_plain(b));
    }
}

/// A colour that is written blue first is read with its red part first.
pub proof fn law_color_parts_change_places(red: int, green: int, blue: int, above: int)
    requires
        0 <= red < 256,
        0 <= green < 256,
        0 <= blue < 256,
        0 <= above,
    ensures
        swapped_color(((above * 256 + blue) * 256 + green) * 256 + red) == (red * 256 + green) * 256
            + blue,
{
}

/// The numbers of the old placement tag count the three places at the bottom, then
/// with four more those at the top, and with eight more those in the middle.
pub proof fn law_old_placements(k: nat)
    requires
        1 <= k <= 3,
    ensures
        legacy_align(k) == k,
        legacy_align(k + 4) == k + 6,
        legacy_align(k + 8) == k + 3,
{
}

/// The text of an embedded line is what stands behind its first eight fields, with
/// whatever commas it holds.
pub proof fn law_embedded_text_is_the_ninth_field(fields: Seq<Seq<char>>, text: Seq<char>)
    requires
        fields.len() == 8,
        forall|i: int| 0 <= i < fields.len() ==> !(#[trigger] fields[i]).contains(','),
    ensures
        embedded_text(join(fields.push(text), seq![','])) == text,
{
    lemma_splitn_join(fields, text, ',');
}

/// Where no tag can begin, none is found.
proof fn lemma_number_not_before(p: Seq<char>, s: Seq<char>, tag: Seq<char>)
    requires
        tag.len() > 0 && tag[0] == '\\',
        forall|k: int| 0 < k < p.len() ==> #[trigger] p[k] != '\\',
        p.len() > 0 && p[0] == '\\' ==> !starts_with(p + s, tag),
    ensures
        number_after(p + s, tag) == number_after(s, tag),
    decreases p.len(),
{
    let whole = p + s;
    if p.len() == 0 {
        assert(whole == s);
    } else {
        if p[0] != '\\' && starts_with(whole, tag) {
            assert(whole.subrange(0, tag.len() as int)[0] == whole[0]);
        }
        let rest = p.skip(1);
        assert forall|k: int| 0 < k < rest.len() implies #[trigger] rest[k] != '\\' by {
            assert(rest[k] == p[k + 1]);
        }
        if rest.len() > 0 {
            assert(rest[0] == p[1]);
        }
        lemma_number_not_before(rest, s, tag);
        assert(whole.skip(1) == rest + s);
    }
}

/// The number right behind a tag is what the tag says.
proof fn lemma_number_right_behind(tag: Seq<char>, n: nat, rest: Seq<char>)
    requires
        tag.len() > 0,
        n <= i64::MAX,
        rest.len() > 0 ==> !is_digit(rest[0]),
    ensures
        number_after(tag + decimal(n) + rest, tag) == Some(n),
{
    let d = decimal(n);
    let whole = tag + d + rest;
    law_decimal_reads_back(n);
    assert(whole.subrange(0, tag.len() as int) == tag);
    assert(is_digit(d[0]));
    assert(whole[tag.len() as int] == d[0]);
    let t = whole.skip(tag.len() as int);
    assert(t == d + rest);
    let f = |c: char| is_digit(c);
    assert forall|i: int| 0 <= i < d.len() implies f(#[trigger] t[i]) by {
        assert(is_digit(d[i]));
    }
    if d.len() < t.len() {
        assert(t[d.len() as int] == rest[0]);
    }
    lemma_run_is(t, f, d.len());
    assert(t.take(d.len() as int) == d);
}

/// A tag gives the number behind it, wherever it stands.
pub proof fn law_tag_gives_its_number(before: Seq<char>, name: Seq<char>, n: nat, rest: Seq<char>)
    requires
        !before.contains('\\'),
        n <= i64::MAX,
        rest.len() > 0 ==> !is_digit(rest[0]),
    ensures
        number_after(before + (seq!['\\'] + name + decimal(n) + rest), seq!['\\'] + name) == Some(
            n,
        ),
{
    let tag = seq!['\\'] + name;
    assert forall|k: int| 0 <= k < before.len() implies #[trigger] before[k] != '\\' by {
        assert(before.contains(before[k]));
    }
    lemma_number_not_before(before, tag + decimal(n) + rest, tag);
    lemma_number_right_behind(tag, n, rest);
}

/// A tag with its number.
pub open spec fn tag_text(name: Seq<char>, n: nat) -> Seq<char> {
    seq!['\\'] + name + decimal(n)
}

/// Tags for the placement, the weight, the slant and the colour of a text.
pub open spec fn style_tags(align: nat, bold: nat, italic: nat, hex: Seq<char>) -> Seq<char> {
    tag_text(seq!['a', 'n'], align) + (tag_text(seq!['b'], bold) + (tag_text(seq!['i'], italic) + (
    seq!['\\', 'c', '&', 'H'] + hex + seq!['&'])))
}

/// In a tag with its number a backslash stands at the beginning alone.
proof fn lemma_tag_text(name: Seq<char>, n: nat)
    requires
        !name.contains('\\'),
    ensures
        tag_text(name, n)[0] == '\\',
        forall|k: int| 0 < k < tag_text(name, n).len() ==> #[trigger] tag_text(name, n)[k] != '\\',
        name.len() > 0 ==> tag_text(name, n)[1] == name[0],
        tag_text(name, n).len() > 1 + name.len(),
        forall|k: int|
            1 + name.len() <= k < tag_text(name, n).len() ==> is_digit(
                #[trigger] tag_text(name, n)[k],
            ),
{
    law_decimal_reads_back(n);
    let t = tag_text(name, n);
    let m = 1 + name.len();
    assert forall|k: int| 0 < k < t.len() implies #[trigger] t[k] != '\\' by {
        if k < m {
            assert(t[k] == name[k - 1]);
            assert(name.contains(name[k - 1]));
        } else {
            assert(is_digit(decimal(n)[k - m]));
        }
    }
    assert forall|k: int| m <= k < t.len() implies is_digit(#[trigger] t[k]) by {
        assert(is_digit(decimal(n)[k - m]));
    }
}

/// A tag is another one where its second character differs.
proof fn lemma_other_tag(s: Seq<char>, tag: Seq<char>)
    requires
        s.len() > 1,
        tag.len() > 1,
        s[1] != tag[1],
    ensures
        !starts_with(s, tag),
{
    if starts_with(s, tag) {
        assert(s.subrange(0, tag.len() as int)[1] == s[1]);
    }
}

proof fn lemma_style_numbers(align: nat, bold: nat, italic: nat, hex: Seq<char>)
    requires
        align <= i64::MAX,
        bold <= i64::MAX,
        italic <= i64::MAX,
    ensures
        ({
            let tags = style_tags(align, bold, italic, hex);
            &&& number_after(tags, "\\an"@) == Some(align)
            &&& number_after(tags, "\\b"@) == Some(bold)
            &&& number_after(tags, "\\i"@) == Some(italic)
        }),
{
    reveal_strlit("\\an");
    reveal_strlit("\\b");
    reveal_strlit("\\i");
    let (an, b, i) = (seq!['a', 'n'], seq!['b'], seq!['i']);
    assert("\\an"@ == seq!['\\'] + an);
    assert("\\b"@ == seq!['\\'] + b);
    assert("\\i"@ == seq!['\\'] + i);
    let end = seq!['\\', 'c', '&', 'H'] + hex + seq!['&'];
    let (t1, t2, t3) = (tag_text(an, align), tag_text(b, bold), tag_text(i, italic));
    let tags = style_tags(align, bold, italic, hex);
    lemma_tag_text(an, align);
    lemma_tag_text(b, bold);
    lemma_tag_text(i, italic);
    lemma_number_right_behind("\\an"@, align, t2 + (t3 + end));
    assert("\\an"@ + decimal(align) + (t2 + (t3 + end)) == tags);
    lemma_number_right_behind("\\b"@, bold, t3 + end);
    lemma_other_tag(tags, "\\b"@);
    lemma_number_not_before(t1, t2 + (t3 + end), "\\b"@);
    assert("\\b"@ + decimal(bold) + (t3 + end) == t2 + (t3 + end));
    lemma_number_right_behind("\\i"@, italic, end);
    lemma_other_tag(tags, "\\i"@);
    lemma_other_tag(t2 + (t3 + end), "\\i"@);
    lemma_number_not_before(t1, t2 + (t3 + end), "\\i"@);
    lemma_number_not_before(t2, t3 + end, "\\i"@);
    assert("\\i"@ + decimal(italic) + end == t3 + end);
}

proof fn lemma_style_color(align: nat, bold: nat, italic: nat, hex: Seq<char>)
    requires
        is_number(hex, 16),
        number_value(hex, 16) <= u32::MAX,
    ensures
        ass_color(style_tags(align, bold, italic, hex)) == Some(number_value(hex, 16)),
{
    reveal_strlit("\\1c&H");
    reveal_strlit("\\c&H");
    let (an, b, i) = (seq!['a', 'n'], seq!['b'], seq!['i']);
    let (t1, t2, t3) = (tag_text(an, align), tag_text(b, bold), tag_text(i, italic));
    let end = seq!['\\', 'c', '&', 'H'] + hex + seq!['&'];
    let tags = style_tags(align, bold, italic, hex);
    lemma_tag_text(an, align);
    lemma_tag_text(b, bold);
    lemma_tag_text(i, italic);
    let n1 = t1.len() as int;
    let n2 = n1 + t2.len();
    let n3 = n2 + t3.len();
    assert forall|k: int| 0 <= k < tags.len() && #[trigger] tags[k] == '\\' implies k == 0 || k == n1
        || k == n2 || k == n3 by {
        if k < n1 {
            assert(tags[k] == t1[k]);
        } else if k < n2 {
            assert(tags[k] == t2[k - n1]);
        } else if k < n3 {
            assert(tags[k] == t3[k - n2]);
        } else {
            assert(tags[k] == end[k - n3]);
            if 4 <= k - n3 < 4 + hex.len() {
                assert(end[k - n3] == hex[k - n3 - 4]);
                assert(digit_value(hex[k - n3 - 4]) < 16);
            }
        }
    }
    assert(tags[1] == 'a' && tags[n1 + 1] == 'b' && tags[n2 + 1] == 'i' && tags[n3 + 1] == 'c');
    assert forall|k: int| !#[trigger] matches_at(tags, "\\1c&H"@, k) by {
        if matches_at(tags, "\\1c&H"@, k) {
            assert(tags.subrange(k, k + 5)[0] == tags[k]);
            assert(tags.subrange(k, k + 5)[1] == tags[k + 1]);
        }
    }
    lemma_find(tags, "\\1c&H"@);
    assert(tags.subrange(n3, n3 + 4) == "\\c&H"@);
    assert forall|k: int| 0 <= k < n3 implies !#[trigger] matches_at(tags, "\\c&H"@, k) by {
        if matches_at(tags, "\\c&H"@, k) {
            assert(tags.subrange(k, k + 4)[0] == tags[k]);
            assert(tags.subrange(k, k + 4)[1] == tags[k + 1]);
        }
    }
    lemma_find_is(tags, "\\c&H"@, n3);
    let rest = tags.skip(n3 + 4);
    assert(rest == hex + seq!['&']);
    let f = |c: char| digit_value(c) < 16;
    assert forall|k: int| 0 <= k < hex.len() implies f(#[trigger] rest[k]) by {
        assert(digit_value(hex[k]) < 16);
    }
    lemma_run_is(rest, f, hex.len());
    assert(rest.take(hex.len() as int) == hex);
}

/// The first block of a text is still there whatever follows it.
proof fn lemma_first_block(head: Seq<char>, tags: Seq<char>, b: Seq<char>)
    requires
        override_blocks(head) == (seq![tags], false),
    ensures
        override_blocks(head + b).0.len() > 0,
        override_blocks(head + b).0[0] == tags,
        override_blocks(head + b).1 ==> override_blocks(head + b).0.len() > 1,
    decreases b.len(),
{
    let s = head + b;
    if b.len() == 0 {
        assert(s == head);
    } else {
        lemma_first_block(head, tags, b.drop_last());
        assert(s.drop_last() == head + b.drop_last());
        assert(s.last() == b.last());
    }
}

proof fn lemma_block_is_read(a: Seq<char>, tags: Seq<char>)
    requires
        !a.contains('{'),
        !tags.contains('{'),
        !tags.contains('}'),
    ensures
        override_blocks(a) == (Seq::<Seq<char>>::empty(), false),
        override_blocks(a + seq!['{'] + tags) == (seq![tags], true),
    decreases a.len() + tags.len(),
{
    let s = a + seq!['{'] + tags;
    if tags.len() > 0 {
        let less = tags.drop_last();
        assert(tags.contains(tags.last()));
        assert(!less.contains('{') && !less.contains('}')) by {
            assert forall|k: int| 0 <= k < less.len() implies less[k] != '{' && less[k] != '}' by {
                assert(tags.contains(tags[k]));
            }
        }
        lemma_block_is_read(a, less);
        assert(s.drop_last() == a + seq!['{'] + less);
        assert(less.push(tags.last()) == tags);
        assert(seq![less].drop_last().push(tags) == seq![tags]);
    } else {
        if a.len() > 0 {
            let less = a.drop_last();
            assert(a.contains(a.last()));
            if less.contains('{') {
                let k = choose|k: int| 0 <= k < less.len() && less[k] == '{';
                assert(a.contains(a[k]));
            }
            lemma_block_is_read(less, tags);
        }
        assert(s.drop_last() == a);
        assert(tags == Seq::<char>::empty());
        assert(Seq::<Seq<char>>::empty().push(Seq::<char>::empty()) == seq![tags]);
    }
}

/// The style of an ASS text is the one that its first block of tags names: the
/// placement, whether it is bold, whether it is italic, and the colour, of which the
/// tags give the blue part first.
pub proof fn law_ass_style_is_read(
    a: Seq<char>,
    align: nat,
    bold: nat,
    italic: nat,
    hex: Seq<char>,
    b: Seq<char>,
)
    requires
        !a.contains('{'),
        1 <= align <= 9,
        bold <= i64::MAX,
        italic <= i64::MAX,
        is_number(hex, 16),
        number_value(hex, 16) <= u32::MAX,
    ensures
        ({
            let s = ass_style(
                a + seq!['{'] + style_tags(align, bold, italic, hex) + seq!['}'] + b,
            );
            &&& s.align == align
            &&& s.bold == (bold != 0)
            &&& s.italic == (italic != 0)
            &&& s.color == Some(swapped_color(number_value(hex, 16) as int) as u32)
        }),
{
    let tags = style_tags(align, bold, italic, hex);
    lemma_style_numbers(align, bold, italic, hex);
    lemma_style_color(align, bold, italic, hex);
    lemma_tags_hold_no_brace(align, bold, italic, hex);
    lemma_block_is_read(a, tags);
    let open = a + seq!['{'] + tags;
    let closed = open + seq!['}'];
    assert(closed.drop_last() == open);
    lemma_first_block(closed, tags, b);
}

proof fn lemma_tags_hold_no_brace(align: nat, bold: nat, italic: nat, hex: Seq<char>)
    requires
        is_number(hex, 16),
    ensures
        !style_tags(align, bold, italic, hex).contains('{'),
        !style_tags(align, bold, italic, hex).contains('}'),
{
    let (an, b, i) = (seq!['a', 'n'], seq!['b'], seq!['i']);
    let (t1, t2, t3) = (tag_text(an, align), tag_text(b, bold), tag_text(i, italic));
    let end = seq!['\\', 'c', '&', 'H'] + hex + seq!['&'];
    let tags = style_tags(align, bold, italic, hex);
    lemma_tag_text(an, align);
    lemma_tag_text(b, bold);
    lemma_tag_text(i, italic);
    let n1 = t1.len() as int;
    let n2 = n1 + t2.len();
    let n3 = n2 + t3.len();
    assert forall|k: int| 0 <= k < tags.len() implies #[trigger] tags[k] != '{' && tags[k] != '}' by {
        if k < n1 {
            assert(tags[k] == t1[k]);
            if k >= 3 {
                assert(is_digit(t1[k]));
            }
        } else if k < n2 {
            assert(tags[k] == t2[k - n1]);
            if k - n1 >= 2 {
                assert(is_digit(t2[k - n1]));
            }
        } else if k < n3 {
            assert(tags[k] == t3[k - n2]);
            if k - n2 >= 2 {
                assert(is_digit(t3[k - n2]));
            }
        } else {
            assert(tags[k] == end[k - n3]);
            if 4 <= k - n3 < 4 + hex.len() {
                assert(end[k - n3] == hex[k - n3 - 4]);
                assert(digit_value(hex[k - n3 - 4]) < 16);
            }
        }
    }
}

/// A text without a block of tags has the default style: at the bottom in the
/// middle, neither bold nor italic, and without a colour of its own.
pub proof fn law_plain_text_has_the_default_style(s: Seq<char>)
    requires
        !s.contains('{'),
    ensures
        ass_style(s) == (CueStyle { align: 2, bold: false, italic: false, color: None }),
{
    lemma_block_is_read(s, Seq::<char>::empty());
}

/// A placement that does not exist is the default one, and the old tag counts only where
/// the new one is missing.
pub proof fn law_strange_placements_are_the_default(tags: Seq<char>, n: nat, k: nat)
    ensures
        number_after(tags, "\\an"@) == Some(n) ==> tag_align(tags) == (if 1 <= n <= 9 {
            n as u8
        } else {
            2
        }),
        number_after(tags, "\\an"@) is None && number_after(tags, "\\a"@) == Some(k) ==> tag_align(
            tags,
        ) == legacy_align(k),
        number_after(tags, "\\an"@) is None && number_after(tags, "\\a"@) is None ==> tag_align(
            tags,
        ) == 2,
        k == 0 || k == 4 || k == 8 || k > 11 ==> legacy_align(k) == 2,
{
}

/// What the tags of a block do not name is as usual.
pub proof fn law_unnamed_parts_are_as_usual(tags: Seq<char>)
    ensures
        number_after(tags, "\\b"@) is None ==> !block_style(tags).bold,
        number_after(tags, "\\i"@) is None ==> !block_style(tags).italic,
        ass_color(tags) is None ==> block_style(tags).color is None,
        number_after(tags, "\\b"@) == Some(0nat) ==> !block_style(tags).bold,
        number_after(tags, "\\i"@) == Some(0nat) ==> !block_style(tags).italic,
{
}

/// The blocks of a text after its first one are those of what follows it.
proof fn lemma_blocks_follow(head: Seq<char>, tags: Seq<char>, b: Seq<char>)
    requires
        override_blocks(head) == (seq![tags], false),
    ensures
        override_blocks(head + b) == (seq![tags] + override_blocks(b).0, override_blocks(b).1),
        override_blocks(b).1 ==> override_blocks(b).0.len() > 0,
    decreases b.len(),
{
    let s = head + b;
    if b.len() == 0 {
        assert(s == head);
        assert(seq![tags] + Seq::<Seq<char>>::empty() == seq![tags]);
    } else {
        let less = b.drop_last();
        lemma_blocks_follow(head, tags, less);
        assert(s.drop_last() == head + less);
        assert(s.last() == b.last());
        let (x, y) = (override_blocks(less).0, seq![tags] + override_blocks(less).0);
        let none = Seq::<char>::empty();
        assert(y.push(none) == seq![tags] + x.push(none));
        if override_blocks(less).1 {
            let c = b.last();
            assert(y.last() == x.last());
            assert(y.drop_last().push(y.last().push(c)) == seq![tags] + x.drop_last().push(
                x.last().push(c),
            ));
        }
    }
}

/// A text has the style of its first block that gives any part of one: a placement, a
/// weight, a slant or a colour. A block that gives none is passed over.
pub proof fn law_first_block_with_a_style_counts(a: Seq<char>, tags: Seq<char>, b: Seq<char>)
    requires
        !a.contains('{'),
        !tags.contains('{'),
        !tags.contains('}'),
    ensures
        ({
            let says_something = number_after(tags, "\\an"@) is Some || number_after(
                tags,
                "\\a"@,
            ) is Some || number_after(tags, "\\b"@) is Some || number_after(tags, "\\i"@) is Some
                || ass_color(tags) is Some;
            ass_style(a + seq!['{'] + tags + seq!['}'] + b) == (if says_something {
                block_style(tags)
            } else {
                ass_style(b)
            })
        }),
{
    lemma_block_is_read(a, tags);
    let open = a + seq!['{'] + tags;
    let closed = open + seq!['}'];
    assert(closed.drop_last() == open);
    lemma_blocks_follow(closed, tags, b);
    let all = seq![tags] + override_blocks(b).0;
    assert(all.skip(1) == override_blocks(b).0);
}

} // verus!
