//! The ASS and SSA formats: the `Dialogue:` lines of the events section.

use super::markup::{ass_plain, ass_style, ass_style_of, clean_ass_chars};
use super::parse::{SubtitleError, is_trimmed};
use super::timestamp::{ass_timestamp_us, parse_ass_timestamp};
use super::track::{Cue, SubtitleCue, cues};
use crate::text::{
    from_chars, has_prefix, is_space, join, lemma_trim_keeps, lemma_trimmed_ends, lines, lines_of,
    lowercase, lowered, part, same_str, split, split_text, splitn, splitn_text, starts_with, texts,
    to_chars, trim, trimmed,
};
use crate::text_facts::lemma_splitn_join;
use vstd::prelude::*;

verus! {

/// Where the fields of a dialogue line stand.
#[derive(Debug, Clone, Copy)]
pub struct Columns {
    pub start: usize,
    pub end: usize,
    pub text: usize,
}

/// The columns of the standard format.
pub open spec fn standard_columns() -> Columns {
    Columns { start: 1, end: 2, text: 9 }
}

/// The last place at which `name` stands among the fields, without regard to
/// case or to white space around it; `otherwise` where it does not.
pub open spec fn column_of(fields: Seq<Seq<char>>, name: Seq<char>, otherwise: int) -> int
    decreases fields.len(),
{
    if fields.len() == 0 {
        otherwise
    } else if lowered(trim(fields.last())) == name {
        fields.len() - 1
    } else {
        column_of(fields.drop_last(), name, otherwise)
    }
}

/// The columns after a `Format:` line: one without a start field says nothing.
pub open spec fn format_columns(fields: Seq<Seq<char>>, columns: Columns) -> Columns {
    if column_of(fields, "start"@, -1) < 0 {
        columns
    } else {
        Columns {
            start: column_of(fields, "start"@, columns.start as int) as usize,
            end: column_of(fields, "end"@, columns.end as int) as usize,
            text: column_of(fields, "text"@, columns.text as int) as usize,
        }
    }
}

/// The cue of a dialogue line. The text field keeps its commas. A line with
/// too few fields, a malformed timestamp or an empty text has none.
pub open spec fn dialogue_cue(line: Seq<char>, columns: Columns) -> Option<Cue> {
    let fields = splitn(line, columns.text as nat + 1, seq![',']);
    if fields.len() <= columns.text || fields.len() <= columns.start || fields.len()
        <= columns.end {
        None
    } else {
        let raw = fields[columns.text as int];
        let text = trim(ass_plain(raw));
        match (
            ass_timestamp_us(fields[columns.start as int]),
            ass_timestamp_us(fields[columns.end as int]),
        ) {
            (Some(start), Some(end)) if text.len() > 0 => Some(
                Cue { start, end, text, style: ass_style(raw) },
            ),
            _ => None,
        }
    }
}

/// What a line of the document says.
pub enum AssLine {
    Format(Seq<char>),
    Dialogue(Seq<char>),
    Other,
}

/// What a line of the document says.
pub open spec fn ass_line(raw: Seq<char>) -> AssLine {
    let line = trim(raw);
    if starts_with(line, "Format:"@) {
        AssLine::Format(line.skip("Format:"@.len() as int))
    } else if starts_with(line, "Dialogue:"@) {
        AssLine::Dialogue(line.skip("Dialogue:"@.len() as int))
    } else {
        AssLine::Other
    }
}

/// The columns and the cues after the lines `ls`.
pub open spec fn ass_state(ls: Seq<Seq<char>>) -> (Columns, Seq<Cue>)
    decreases ls.len(),
{
    if ls.len() == 0 {
        (standard_columns(), seq![])
    } else {
        let (columns, found) = ass_state(ls.drop_last());
        match ass_line(ls.last()) {
            AssLine::Format(fields) => (format_columns(split(fields, seq![',']), columns), found),
            AssLine::Dialogue(fields) => match dialogue_cue(fields, columns) {
                Some(cue) => (columns, found.push(cue)),
                None => (columns, found),
            },
            AssLine::Other => (columns, found),
        }
    }
}

/// The cues of an ASS document.
pub open spec fn ass_cues(doc: Seq<char>) -> Seq<Cue> {
    ass_state(lines(doc)).1
}

/// A column that is found is one of the fields.
proof fn lemma_column_of(fields: Seq<Seq<char>>, name: Seq<char>, otherwise: int)
    ensures
        column_of(fields, name, otherwise) == otherwise || 0 <= column_of(fields, name, otherwise)
            < fields.len(),
        column_of(fields, name, -1) < 0 ==> column_of(fields, name, otherwise) == otherwise,
    decreases fields.len(),
{
    if fields.len() > 0 {
        lemma_column_of(fields.drop_last(), name, otherwise);
    }
}

/// The last place at which `name` stands among the fields.
fn find_column(fields: &[&[char]], name: &str) -> (r: Option<usize>)
    ensures
        r matches Some(i) ==> i < fields@.len() && forall|otherwise: int| #[trigger]
            column_of(texts(fields@), name@, otherwise) == i,
        r is None ==> forall|otherwise: int| #[trigger]
            column_of(texts(fields@), name@, otherwise) == otherwise,
{
    let ghost all = texts(fields@);
    let mut i: usize = fields.len();
    assert(all.take(i as int) == all);
    while i > 0
        invariant
            i <= fields@.len(),
            all == texts(fields@),
            forall|otherwise: int| #[trigger]
                column_of(all, name@, otherwise) == column_of(
                    all.take(i as int),
                    name@,
                    otherwise,
                ),
        decreases i,
    {
        i = i - 1;
        assert(all.take(i + 1).drop_last() == all.take(i as int));
        assert(all.take(i + 1).last() == fields@[i as int]@);
        let low = lowercase(trimmed(fields[i]));
        if same_str(name, &low) {
            return Some(i);
        }
    }
    None
}

/// The columns after a `Format:` line.
fn read_format(line: &[char], columns: Columns) -> (r: Columns)
    requires
        columns.text < usize::MAX,
    ensures
        r == format_columns(split(line@, seq![',']), columns),
        r.text < usize::MAX,
{
    let comma: Vec<char> = vec![','];
    assert(comma@ == seq![',']);
    let fields = split_text(line, &comma);
    let count: usize = fields.len();
    let ghost all = texts(fields@);
    proof {
        lemma_column_of(all, "start"@, columns.start as int);
    }
    let start = find_column(&fields, "start");
    let end = find_column(&fields, "end");
    let text = find_column(&fields, "text");
    match start {
        None => columns,
        Some(s) => Columns {
            start: s,
            end: match end {
                Some(e) => e,
                None => columns.end,
            },
            text: match text {
                Some(t) => t,
                None => columns.text,
            },
        },
    }
}

/// The cue of a dialogue line.
fn read_dialogue(line: &[char], columns: Columns) -> (r: Option<SubtitleCue>)
    requires
        columns.text < usize::MAX,
    ensures
        r matches Some(cue) ==> dialogue_cue(line@, columns) == Some(cue@),
        r is None ==> dialogue_cue(line@, columns) is None,
{
    let comma: Vec<char> = vec![','];
    assert(comma@ == seq![',']);
    let fields = splitn_text(line, columns.text + 1, &comma);
    let ghost all = texts(fields@);
    assert(all.len() == fields@.len());
    assert(forall|i: int| 0 <= i < fields@.len() ==> fields@[i]@ == all[i]);
    if fields.len() <= columns.text || fields.len() <= columns.start || fields.len()
        <= columns.end {
        return None;
    }
    let start_us: i64 = match parse_ass_timestamp(fields[columns.start]) {
        Some(v) => v,
        None => return None,
    };
    let end_us: i64 = match parse_ass_timestamp(fields[columns.end]) {
        Some(v) => v,
        None => return None,
    };
    let raw = fields[columns.text];
    let text = clean_ass_chars(raw);
    if text.len() > 0 {
        Some(
            SubtitleCue { start_us, end_us, text: from_chars(&text), style: ass_style_of(raw) },
        )
    } else {
        None
    }
}

/// What follows the word of a `Format:` line.
fn format_fields<'a>(line: &'a [char]) -> (r: Option<&'a [char]>)
    ensures
        r matches Some(fields) ==> ass_line(line@) == AssLine::Format(fields@),
        r is None ==> !(ass_line(line@) is Format),
{
    let line = trimmed(line);
    let n: usize = line.len();
    if has_prefix(line, "Format:") {
        let fields = part(line, to_chars("Format:").len(), n);
        assert(fields@ == line@.skip("Format:"@.len() as int));
        Some(fields)
    } else {
        None
    }
}

/// What follows the word of a `Dialogue:` line.
fn dialogue_fields<'a>(line: &'a [char]) -> (r: Option<&'a [char]>)
    requires
        !(ass_line(line@) is Format),
    ensures
        r matches Some(fields) ==> ass_line(line@) == AssLine::Dialogue(fields@),
        r is None ==> ass_line(line@) is Other,
{
    let line = trimmed(line);
    let n: usize = line.len();
    if has_prefix(line, "Dialogue:") {
        let fields = part(line, to_chars("Dialogue:").len(), n);
        assert(fields@ == line@.skip("Dialogue:"@.len() as int));
        Some(fields)
    } else {
        None
    }
}

/// Reads an ASS or SSA document. A malformed line is ignored.
pub fn parse_ass(input: &str) -> (r: Result<Vec<SubtitleCue>, SubtitleError>)
    ensures
        r matches Ok(v) && cues(v@) == ass_cues(input@),
{
    let chars = to_chars(input);
    let ls = lines_of(&chars);
    let ghost all = texts(ls@);
    let mut out: Vec<SubtitleCue> = Vec::new();
    let mut columns: Columns = Columns { start: 1, end: 2, text: 9 };
    let mut i: usize = 0;
    assert(all.take(0) == Seq::<Seq<char>>::empty());
    while i < ls.len()
        invariant
            i <= ls@.len(),
            all == texts(ls@),
            columns.text < usize::MAX,
            columns == ass_state(all.take(i as int)).0,
            cues(out@) == ass_state(all.take(i as int)).1,
        decreases ls@.len() - i,
    {
        let ghost before = cues(out@);
        assert(all.take(i + 1).drop_last() == all.take(i as int));
        assert(all.take(i + 1).last() == ls@[i as int]@);
        match format_fields(ls[i]) {
            Some(fields) => {
                columns = read_format(fields, columns);
            },
            None => {
                if let Some(fields) = dialogue_fields(ls[i]) {
                    if let Some(cue) = read_dialogue(fields, columns) {
                        out.push(cue);
                        assert(cues(out@) == before.push(cue@));
                    }
                }
            },
        }
        i = i + 1;
    }
    assert(all.take(ls@.len() as int) == all);
    Ok(out)
}

/// Every cue of an ASS document shows something: its text is not blank, and no
/// blanks stand at its ends.
pub proof fn law_ass_cues_are_not_blank(ls: Seq<Seq<char>>, i: int)
    requires
        0 <= i < ass_state(ls).1.len(),
    ensures
        is_trimmed(ass_state(ls).1[i].text),
    decreases ls.len(),
{
    let (columns, found) = ass_state(ls.drop_last());
    if i < found.len() {
        law_ass_cues_are_not_blank(ls.drop_last(), i);
    } else if let AssLine::Dialogue(fields) = ass_line(ls.last()) {
        lemma_trimmed_ends(
            ass_plain(splitn(fields, columns.text as nat + 1, seq![','])[columns.text as int]),
        );
    }
}

// ---- Laws ------------------------------------------------------------------

/// Lines that are neither a format nor a dialogue say nothing of the cues.
pub proof fn law_other_ass_lines_say_nothing(a: Seq<Seq<char>>, c: Seq<char>, b: Seq<Seq<char>>)
    requires
        !starts_with(trim(c), "Format:"@),
        !starts_with(trim(c), "Dialogue:"@),
    ensures
        ass_state(a + seq![c] + b) == ass_state(a + b),
    decreases b.len(),
{
    let with = a + seq![c] + b;
    if b.len() == 0 {
        assert(with.drop_last() == a);
        assert(with.last() == c);
        assert(a + b == a);
    } else {
        law_other_ass_lines_say_nothing(a, c, b.drop_last());
        assert(with.drop_last() == a + seq![c] + b.drop_last());
        assert((a + b).drop_last() == a + b.drop_last());
        assert(with.last() == b.last() && (a + b).last() == b.last());
    }
}

/// A dialogue is shown between the two times that its fields name, with the text
/// behind its last field, whatever commas that holds, and in the style of its tags.
/// It has a cue if and only if both times are well formed and something is left of
/// the text.
pub proof fn law_dialogue_is_read(fields: Seq<Seq<char>>, text: Seq<char>, columns: Columns)
    requires
        fields.len() == columns.text,
        columns.start < columns.text,
        columns.end < columns.text,
        forall|i: int| 0 <= i < fields.len() ==> !(#[trigger] fields[i]).contains(','),
    ensures
        ({
            let start = ass_timestamp_us(fields[columns.start as int]);
            let end = ass_timestamp_us(fields[columns.end as int]);
            let shown = trim(ass_plain(text));
            let cue = dialogue_cue(join(fields.push(text), seq![',']), columns);
            &&& cue is Some <==> start is Some && end is Some && shown.len() > 0
            &&& cue matches Some(c) ==> Some(c.start) == start && Some(c.end) == end && c.text
                == shown && c.style == ass_style(text)
        }),
{
    lemma_splitn_join(fields, text, ',');
    let all = fields.push(text);
    assert(all[columns.start as int] == fields[columns.start as int]);
    assert(all[columns.end as int] == fields[columns.end as int]);
}

/// A dialogue line adds its cue behind those that are there and changes nothing
/// else.
pub proof fn law_dialogue_adds_its_cue(
    ls: Seq<Seq<char>>,
    fields: Seq<Seq<char>>,
    text: Seq<char>,
)
    requires
        text.len() > 0 && !is_space(text.last()),
    ensures
        ({
            let body = join(fields.push(text), seq![',']);
            let (columns, found) = ass_state(ls);
            ass_state(ls.push("Dialogue:"@ + body)) == (
                columns,
                match dialogue_cue(body, columns) {
                    Some(cue) => found.push(cue),
                    None => found,
                },
            )
        }),
{
    reveal_strlit("Dialogue:");
    reveal_strlit("Format:");
    let all = fields.push(text);
    let body = join(all, seq![',']);
    let line = "Dialogue:"@ + body;
    assert(body.len() > 0 && body.last() == text.last()) by {
        if all.len() == 1 {
            assert(body == text);
        } else {
            assert(body == join(all.drop_last(), seq![',']) + seq![','] + text);
        }
    }
    assert(line.last() == body.last());
    lemma_trim_keeps(line);
    assert(line.subrange(0, 9) == "Dialogue:"@);
    assert(line.skip(9) == body);
    if starts_with(line, "Format:"@) {
        assert(line.subrange(0, 7)[0] == line[0]);
    }
    assert(ls.push(line).drop_last() == ls);
}

/// A document names its columns: each field stands where its name does, and a
/// document that names none has them where they usually are.
pub proof fn law_format_names_the_columns(
    fields: Seq<Seq<char>>,
    columns: Columns,
    i: int,
    j: int,
    k: int,
)
    requires
        0 <= i < fields.len() <= usize::MAX,
        0 <= j < fields.len(),
        0 <= k < fields.len(),
        lowered(trim(fields[i])) == "start"@,
        lowered(trim(fields[j])) == "end"@,
        lowered(trim(fields[k])) == "text"@,
        forall|n: int| i < n < fields.len() ==> lowered(trim(#[trigger] fields[n])) != "start"@,
        forall|n: int| j < n < fields.len() ==> lowered(trim(#[trigger] fields[n])) != "end"@,
        forall|n: int| k < n < fields.len() ==> lowered(trim(#[trigger] fields[n])) != "text"@,
    ensures
        format_columns(fields, columns) == (Columns {
            start: i as usize,
            end: j as usize,
            text: k as usize,
        }),
        ass_state(seq![]).0 == (Columns { start: 1, end: 2, text: 9 }),
{
    lemma_last_column(fields, "start"@, -1, i);
    lemma_last_column(fields, "start"@, columns.start as int, i);
    lemma_last_column(fields, "end"@, columns.end as int, j);
    lemma_last_column(fields, "text"@, columns.text as int, k);
}

proof fn lemma_last_column(fields: Seq<Seq<char>>, name: Seq<char>, otherwise: int, i: int)
    requires
        0 <= i < fields.len(),
        lowered(trim(fields[i])) == name,
        forall|n: int| i < n < fields.len() ==> lowered(trim(#[trigger] fields[n])) != name,
    ensures
        column_of(fields, name, otherwise) == i,
    decreases fields.len(),
{
    if i < fields.len() - 1 {
        let less = fields.drop_last();
        assert(lowered(trim(fields[fields.len() - 1])) != name);
        assert forall|n: int| i < n < less.len() implies lowered(trim(#[trigger] less[n])) != name by {
            assert(less[n] == fields[n]);
        }
        lemma_last_column(less, name, otherwise, i);
    }
}

} // verus!
