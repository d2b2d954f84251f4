//! Text as sequences of characters: searching, splitting, trimming, joining.
//!
//! The specification functions work on `Seq<char>`, the view of `str` and
//! `String`; the executable ones work on slices of characters and are exact
//! with respect to them.

use vstd::prelude::*;
use vstd::slice::slice_subrange;

verus! {

/// `String::push` appends one character at the end of the string.
pub assume_specification[ String::push ](s: &mut String, c: char)
    ensures
        final(s)@ == old(s)@.push(c),
;

// ---- Conversions -----------------------------------------------------------

/// The characters of `s`, in order.
pub fn to_chars(s: &str) -> (v: Vec<char>)
    ensures
        v@ == s@,
{
    let mut v: Vec<char> = Vec::new();
    for c in it: s.chars()
        invariant
            v@ == s@.take(it.index()),
            it.seq() == s@,
    {
        v.push(c);
    }
    assert(s@.take(s@.len() as int) == s@);
    v
}

/// The string made of the characters of `v`.
pub fn from_chars(v: &[char]) -> (s: String)
    ensures
        s@ == v@,
{
    let mut s: String = String::new();
    let mut i: usize = 0;
    while i < v.len()
        invariant
            i <= v@.len(),
            s@ == v@.take(i as int),
        decreases v@.len() - i,
    {
        s.push(v[i]);
        i = i + 1;
    }
    assert(v@.take(v@.len() as int) == v@);
    s
}

/// Appends the characters of `s` to `v`.
pub fn push_all(v: &mut Vec<char>, s: &[char])
    ensures
        final(v)@ == old(v)@ + s@,
{
    let mut i: usize = 0;
    while i < s.len()
        invariant
            i <= s@.len(),
            v@ == old(v)@ + s@.take(i as int),
        decreases s@.len() - i,
    {
        v.push(s[i]);
        i = i + 1;
    }
    assert(s@.take(s@.len() as int) == s@);
}

/// Appends the characters of `s` to `v`.
pub fn push_text(v: &mut Vec<char>, s: &str)
    ensures
        final(v)@ == old(v)@ + s@,
{
    let c = to_chars(s);
    push_all(v, &c);
}

/// One string after another.
pub fn glue(a: &str, b: &str) -> (r: String)
    ensures
        r@ == a@ + b@,
{
    let mut out = to_chars(a);
    push_text(&mut out, b);
    from_chars(&out)
}

/// The sequences of characters that the slices of `v` hold.
pub open spec fn texts(v: Seq<&[char]>) -> Seq<Seq<char>> {
    Seq::new(v.len(), |i: int| v[i]@)
}

/// The part of `s` from `from` up to `to`, excluded.
pub fn part<'a>(s: &'a [char], from: usize, to: usize) -> (r: &'a [char])
    requires
        from <= to <= s@.len(),
    ensures
        r@ == s@.subrange(from as int, to as int),
{
    slice_subrange(s, from, to)
}

/// Whether two texts are the same.
pub fn same(a: &[char], b: &[char]) -> (r: bool)
    ensures
        r == (a@ == b@),
{
    if a.len() != b.len() {
        return false;
    }
    let mut i: usize = 0;
    while i < a.len()
        invariant
            a@.len() == b@.len(),
            i <= a@.len(),
            forall|k: int| 0 <= k < i ==> a@[k] == b@[k],
        decreases a@.len() - i,
    {
        if a[i] != b[i] {
            return false;
        }
        i = i + 1;
    }
    assert(a@ == b@);
    true
}

/// Whether a string holds the same text as a slice of characters.
pub fn same_str(a: &str, b: &[char]) -> (r: bool)
    ensures
        r == (a@ == b@),
{
    let c = to_chars(a);
    same(&c, b)
}

// ---- Searching -------------------------------------------------------------

/// Whether `p` stands in `s` at index `i`.
pub open spec fn matches_at(s: Seq<char>, p: Seq<char>, i: int) -> bool {
    &&& 0 <= i
    &&& i + p.len() <= s.len()
    &&& s.subrange(i, i + p.len()) == p
}

/// Whether `s` begins with `p`.
pub open spec fn starts_with(s: Seq<char>, p: Seq<char>) -> bool {
    matches_at(s, p, 0)
}

/// Whether `s` ends with `p`.
pub open spec fn ends_with(s: Seq<char>, p: Seq<char>) -> bool {
    matches_at(s, p, s.len() - p.len())
}

/// Whether `p` stands somewhere in `s`.
pub open spec fn contains(s: Seq<char>, p: Seq<char>) -> bool {
    exists|i: int| #[trigger] matches_at(s, p, i)
}

/// The first index, not before `i`, at which `p` stands in `s`.
pub open spec fn find_from(s: Seq<char>, p: Seq<char>, i: int) -> Option<int>
    decreases s.len() - i + 1,
{
    if i < 0 || i + p.len() > s.len() {
        None
    } else if matches_at(s, p, i) {
        Some(i)
    } else {
        find_from(s, p, i + 1)
    }
}

/// The first index at which `p` stands in `s`.
pub open spec fn find(s: Seq<char>, p: Seq<char>) -> Option<int> {
    find_from(s, p, 0)
}

/// The last index, not after `i`, at which `p` stands in `s`.
pub open spec fn rfind_upto(s: Seq<char>, p: Seq<char>, i: int) -> Option<int>
    decreases i + 1,
{
    if i < 0 {
        None
    } else if matches_at(s, p, i) {
        Some(i)
    } else {
        rfind_upto(s, p, i - 1)
    }
}

/// The last index at which `p` stands in `s`.
pub open spec fn rfind(s: Seq<char>, p: Seq<char>) -> Option<int> {
    rfind_upto(s, p, s.len() - p.len())
}

/// `find_from` yields the least match at or after `i`.
pub proof fn lemma_find_from(s: Seq<char>, p: Seq<char>, i: int)
    requires
        0 <= i,
    ensures
        find_from(s, p, i) matches Some(j) ==> i <= j && matches_at(s, p, j) && forall|k: int|
            i <= k < j ==> !#[trigger] matches_at(s, p, k),
        find_from(s, p, i) is None ==> forall|k: int| i <= k ==> !#[trigger] matches_at(s, p, k),
    decreases s.len() - i + 1,
{
    if i + p.len() <= s.len() && !matches_at(s, p, i) {
        lemma_find_from(s, p, i + 1);
    }
}

/// `find` yields the least match, and something exactly when there is one.
pub proof fn lemma_find(s: Seq<char>, p: Seq<char>)
    ensures
        find(s, p) matches Some(j) ==> matches_at(s, p, j) && forall|k: int|
            0 <= k < j ==> !#[trigger] matches_at(s, p, k),
        find(s, p) is Some <==> contains(s, p),
{
    lemma_find_from(s, p, 0);
}

/// The least match is what `find` yields.
pub proof fn lemma_find_is(s: Seq<char>, p: Seq<char>, j: int)
    requires
        matches_at(s, p, j),
        forall|k: int| 0 <= k < j ==> !#[trigger] matches_at(s, p, k),
    ensures
        find(s, p) == Some(j),
{
    lemma_find(s, p);
    assert(contains(s, p));
    let f = find(s, p)->0;
    if f < j {
        assert(!matches_at(s, p, f));
    }
}

/// `rfind_upto` yields the greatest match at or before `i`.
pub proof fn lemma_rfind_upto(s: Seq<char>, p: Seq<char>, i: int)
    ensures
        rfind_upto(s, p, i) matches Some(j) ==> j <= i && matches_at(s, p, j) && forall|k: int|
            j < k <= i ==> !#[trigger] matches_at(s, p, k),
        rfind_upto(s, p, i) is None ==> forall|k: int| k <= i ==> !#[trigger] matches_at(s, p, k),
    decreases i + 1,
{
    if 0 <= i && !matches_at(s, p, i) {
        lemma_rfind_upto(s, p, i - 1);
    }
}

/// Whether `p` stands in `s` at index `i`.
pub fn is_match_at(s: &[char], p: &[char], i: usize) -> (r: bool)
    ensures
        r == matches_at(s@, p@, i as int),
{
    if i > s.len() || p.len() > s.len() - i {
        return false;
    }
    same(part(s, i, i + p.len()), p)
}

/// Whether `s` begins with `p`.
pub fn has_prefix(s: &[char], p: &str) -> (r: bool)
    ensures
        r == starts_with(s@, p@),
{
    let p = to_chars(p);
    is_match_at(s, &p, 0)
}

/// Whether `s` ends with `p`.
pub fn has_suffix(s: &[char], p: &str) -> (r: bool)
    ensures
        r == ends_with(s@, p@),
{
    let p = to_chars(p);
    if p.len() > s.len() {
        return false;
    }
    is_match_at(s, &p, s.len() - p.len())
}

/// The first index at which `p` stands in `s`.
pub fn find_text(s: &[char], p: &[char]) -> (r: Option<usize>)
    ensures
        r matches Some(i) ==> find(s@, p@) == Some(i as int) && i + p@.len() <= s@.len(),
        r is None ==> find(s@, p@) is None,
{
    if p.len() > s.len() {
        return None;
    }
    let last: usize = s.len() - p.len();
    let mut i: usize = 0;
    loop
        invariant
            i <= last,
            last + p@.len() == s@.len(),
            find(s@, p@) == find_from(s@, p@, i as int),
        decreases last - i,
    {
        if is_match_at(s, p, i) {
            return Some(i);
        }
        if i == last {
            assert(find_from(s@, p@, i + 1) is None);
            return None;
        }
        i = i + 1;
    }
}

/// The last index at which `p` stands in `s`.
pub fn rfind_text(s: &[char], p: &[char]) -> (r: Option<usize>)
    ensures
        r matches Some(i) ==> rfind(s@, p@) == Some(i as int) && i + p@.len() <= s@.len(),
        r is None ==> rfind(s@, p@) is None,
{
    if p.len() > s.len() {
        return None;
    }
    let mut i: usize = s.len() - p.len();
    loop
        invariant
            i + p@.len() <= s@.len(),
            rfind(s@, p@) == rfind_upto(s@, p@, i as int),
        decreases i,
    {
        if is_match_at(s, p, i) {
            return Some(i);
        }
        if i == 0 {
            assert(rfind_upto(s@, p@, i - 1) is None);
            return None;
        }
        i = i - 1;
    }
}

/// Whether `p` stands somewhere in `s`.
pub fn has_text(s: &[char], p: &str) -> (r: bool)
    ensures
        r == contains(s@, p@),
{
    let p = to_chars(p);
    proof {
        lemma_find(s@, p@);
    }
    find_text(s, &p).is_some()
}

// ---- Splitting -------------------------------------------------------------

/// What stands before and after the first `p` in `s`.
pub open spec fn split_once(s: Seq<char>, p: Seq<char>) -> Option<(Seq<char>, Seq<char>)> {
    match find(s, p) {
        Some(i) => Some((s.take(i), s.skip(i + p.len()))),
        None => None,
    }
}

/// What stands before and after the last `p` in `s`.
pub open spec fn rsplit_once(s: Seq<char>, p: Seq<char>) -> Option<(Seq<char>, Seq<char>)> {
    match rfind(s, p) {
        Some(i) => Some((s.take(i), s.skip(i + p.len()))),
        None => None,
    }
}

/// The pieces of `s` between the occurrences of `p`, which is not empty.
pub open spec fn split(s: Seq<char>, p: Seq<char>) -> Seq<Seq<char>>
    recommends
        p.len() > 0,
    decreases s.len(),
{
    proof {
        lemma_find(s, p);
    }
    match split_once(s, p) {
        Some((before, after)) if p.len() > 0 => seq![before] + split(after, p),
        _ => seq![s],
    }
}

/// At most `n` pieces of `s`: the last one keeps whatever is left.
pub open spec fn splitn(s: Seq<char>, n: nat, p: Seq<char>) -> Seq<Seq<char>>
    decreases n,
{
    if n == 0 {
        seq![]
    } else if n == 1 {
        seq![s]
    } else {
        match split_once(s, p) {
            Some((before, after)) => seq![before] + splitn(after, (n - 1) as nat, p),
            None => seq![s],
        }
    }
}

/// What stands before and after the first `p` in `s`.
pub fn cut<'a>(s: &'a [char], p: &[char]) -> (r: Option<(&'a [char], &'a [char])>)
    ensures
        r matches Some((a, b)) ==> split_once(s@, p@) == Some((a@, b@)),
        r is None ==> split_once(s@, p@) is None,
{
    match find_text(s, p) {
        Some(i) => {
            let n: usize = s.len();
            let a = part(s, 0, i);
            let b = part(s, i + p.len(), n);
            assert(a@ == s@.take(i as int));
            assert(b@ == s@.skip(i + p@.len()));
            Some((a, b))
        },
        None => None,
    }
}

/// What stands before and after the last `p` in `s`.
pub fn rcut<'a>(s: &'a [char], p: &[char]) -> (r: Option<(&'a [char], &'a [char])>)
    ensures
        r matches Some((a, b)) ==> rsplit_once(s@, p@) == Some((a@, b@)),
        r is None ==> rsplit_once(s@, p@) is None,
{
    match rfind_text(s, p) {
        Some(i) => {
            let n: usize = s.len();
            let a = part(s, 0, i);
            let b = part(s, i + p.len(), n);
            assert(a@ == s@.take(i as int));
            assert(b@ == s@.skip(i + p@.len()));
            Some((a, b))
        },
        None => None,
    }
}

/// The pieces of `s` between the occurrences of `p`.
pub fn split_text<'a>(s: &'a [char], p: &[char]) -> (r: Vec<&'a [char]>)
    requires
        p@.len() > 0,
    ensures
        texts(r@) == split(s@, p@),
        r@.len() > 0,
{
    let mut out: Vec<&'a [char]> = Vec::new();
    let mut rest: &'a [char] = s;
    assert(texts(out@) + split(rest@, p@) == split(s@, p@));
    loop
        invariant
            p@.len() > 0,
            texts(out@) + split(rest@, p@) == split(s@, p@),
        decreases rest@.len(),
    {
        let ghost before = texts(out@);
        proof {
            lemma_find(rest@, p@);
        }
        match cut(rest, p) {
            Some((a, b)) => {
                let ghost whole = rest@;
                out.push(a);
                rest = b;
                assert(texts(out@) == before.push(a@));
                assert(split(whole, p@) == seq![a@] + split(b@, p@));
                assert(texts(out@) + split(b@, p@) == before + (seq![a@] + split(b@, p@)));
            },
            None => {
                out.push(rest);
                assert(texts(out@) == before + seq![rest@]);
                return out;
            },
        }
    }
}

/// At most `n` pieces of `s`: the last one keeps whatever is left.
pub fn splitn_text<'a>(s: &'a [char], n: usize, p: &[char]) -> (r: Vec<&'a [char]>)
    requires
        n > 0,
    ensures
        texts(r@) == splitn(s@, n as nat, p@),
        1 <= r@.len() <= n,
{
    let mut out: Vec<&'a [char]> = Vec::new();
    let mut rest: &'a [char] = s;
    let mut left: usize = n;
    assert(texts(out@) + splitn(rest@, left as nat, p@) == splitn(s@, n as nat, p@));
    while left > 1
        invariant
            1 <= left <= n,
            out@.len() + left == n,
            texts(out@) + splitn(rest@, left as nat, p@) == splitn(s@, n as nat, p@),
        decreases left,
    {
        let ghost before = texts(out@);
        match cut(rest, p) {
            Some((a, b)) => {
                out.push(a);
                rest = b;
                left = left - 1;
                assert(texts(out@) == before.push(a@));
                assert(texts(out@) + splitn(b@, left as nat, p@) == before + (seq![a@] + splitn(
                    b@,
                    left as nat,
                    p@,
                )));
            },
            None => {
                out.push(rest);
                assert(texts(out@) == before + seq![rest@]);
                return out;
            },
        }
    }
    let ghost before = texts(out@);
    out.push(rest);
    assert(texts(out@) == before + seq![rest@]);
    out
}

// ---- Lines -----------------------------------------------------------------

/// `s` without a carriage return at its end.
pub open spec fn strip_cr(s: Seq<char>) -> Seq<char> {
    if s.len() > 0 && s.last() == '\r' {
        s.drop_last()
    } else {
        s
    }
}

/// The lines of `s`, without their endings (`\n` or `\r\n`).
pub open spec fn lines(s: Seq<char>) -> Seq<Seq<char>>
    decreases s.len(),
{
    proof {
        lemma_find(s, seq!['\n']);
    }
    if s.len() == 0 {
        seq![]
    } else {
        match split_once(s, seq!['\n']) {
            Some((line, after)) => seq![strip_cr(line)] + lines(after),
            None => seq![s],
        }
    }
}

/// The lines of `s`, without their endings.
pub fn lines_of<'a>(s: &'a [char]) -> (r: Vec<&'a [char]>)
    ensures
        texts(r@) == lines(s@),
{
    let newline: Vec<char> = vec!['\n'];
    assert(newline@ == seq!['\n']);
    let mut out: Vec<&'a [char]> = Vec::new();
    let mut rest: &'a [char] = s;
    assert(texts(out@) + lines(rest@) == lines(s@));
    while rest.len() > 0
        invariant
            newline@ == seq!['\n'],
            texts(out@) + lines(rest@) == lines(s@),
        decreases rest@.len(),
    {
        let ghost before = texts(out@);
        let ghost whole = rest@;
        proof {
            lemma_find(rest@, newline@);
        }
        match cut(rest, &newline) {
            Some((a, b)) => {
                let n: usize = a.len();
                let line: &'a [char] = if n > 0 && a[n - 1] == '\r' {
                    part(a, 0, n - 1)
                } else {
                    a
                };
                assert(line@ == strip_cr(a@));
                out.push(line);
                rest = b;
                assert(texts(out@) == before.push(line@));
                assert(lines(whole) == seq![line@] + lines(b@));
                assert(texts(out@) + lines(b@) == before + (seq![line@] + lines(b@)));
            },
            None => {
                out.push(rest);
                assert(texts(out@) == before + seq![rest@]);
                return out;
            },
        }
    }
    assert(texts(out@) + lines(rest@) == texts(out@));
    out
}

// ---- Replacing and joining -------------------------------------------------

/// `s` with each `p`, which is not empty, replaced by `q`.
pub open spec fn replace(s: Seq<char>, p: Seq<char>, q: Seq<char>) -> Seq<char>
    recommends
        p.len() > 0,
    decreases s.len(),
{
    proof {
        lemma_find(s, p);
    }
    match split_once(s, p) {
        Some((before, after)) if p.len() > 0 => before + q + replace(after, p, q),
        _ => s,
    }
}

/// `s` with each `p` replaced by `q`.
pub fn replace_text(s: &[char], p: &[char], q: &[char]) -> (r: Vec<char>)
    requires
        p@.len() > 0,
    ensures
        r@ == replace(s@, p@, q@),
{
    let mut out: Vec<char> = Vec::new();
    let mut rest: &[char] = s;
    assert(out@ + replace(rest@, p@, q@) == replace(s@, p@, q@));
    loop
        invariant
            p@.len() > 0,
            out@ + replace(rest@, p@, q@) == replace(s@, p@, q@),
        decreases rest@.len(),
    {
        let ghost before = out@;
        proof {
            lemma_find(rest@, p@);
        }
        match cut(rest, p) {
            Some((a, b)) => {
                push_all(&mut out, a);
                push_all(&mut out, q);
                rest = b;
                assert(out@ + replace(b@, p@, q@) == before + (a@ + q@ + replace(b@, p@, q@)));
            },
            None => {
                push_all(&mut out, rest);
                return out;
            },
        }
    }
}

/// The texts of `parts`, in order, with `sep` between them.
pub open spec fn join(parts: Seq<Seq<char>>, sep: Seq<char>) -> Seq<char>
    decreases parts.len(),
{
    if parts.len() == 0 {
        seq![]
    } else if parts.len() == 1 {
        parts[0]
    } else {
        join(parts.drop_last(), sep) + sep + parts.last()
    }
}

/// The texts of `parts`, in order, with `sep` between them.
pub fn join_text(parts: &[&[char]], sep: &str) -> (r: Vec<char>)
    ensures
        r@ == join(texts(parts@), sep@),
{
    let sep = to_chars(sep);
    let mut out: Vec<char> = Vec::new();
    let mut i: usize = 0;
    while i < parts.len()
        invariant
            i <= parts@.len(),
            out@ == join(texts(parts@).take(i as int), sep@),
        decreases parts@.len() - i,
    {
        if i > 0 {
            push_all(&mut out, &sep);
        }
        push_all(&mut out, parts[i]);
        proof {
            let all = texts(parts@);
            assert(all.take(i + 1).drop_last() == all.take(i as int));
            if i == 0 {
                assert(out@ == parts@[0]@);
            }
        }
        i = i + 1;
    }
    assert(texts(parts@).take(parts@.len() as int) == texts(parts@));
    out
}

// ---- Trimming --------------------------------------------------------------

/// The Unicode `White_Space` characters.
pub open spec fn is_space(c: char) -> bool {
    let u = c as u32;
    ||| 0x9 <= u <= 0xd
    ||| u == 0x20
    ||| u == 0x85
    ||| u == 0xa0
    ||| u == 0x1680
    ||| 0x2000 <= u <= 0x200a
    ||| u == 0x2028
    ||| u == 0x2029
    ||| u == 0x202f
    ||| u == 0x205f
    ||| u == 0x3000
}

/// Whether `c` is white space.
pub fn is_whitespace(c: char) -> (b: bool)
    ensures
        b == is_space(c),
{
    let u: u32 = c as u32;
    (0x9 <= u && u <= 0xd) || u == 0x20 || u == 0x85 || u == 0xa0 || u == 0x1680 || (0x2000 <= u
        && u <= 0x200a) || u == 0x2028 || u == 0x2029 || u == 0x202f || u == 0x205f || u == 0x3000
}

/// `s` without the white space at its beginning.
pub open spec fn trim_start(s: Seq<char>) -> Seq<char>
    decreases s.len(),
{
    if s.len() > 0 && is_space(s[0]) {
        trim_start(s.drop_first())
    } else {
        s
    }
}

/// `s` without the white space at its end.
pub open spec fn trim_end(s: Seq<char>) -> Seq<char>
    decreases s.len(),
{
    if s.len() > 0 && is_space(s.last()) {
        trim_end(s.drop_last())
    } else {
        s
    }
}

/// `s` without the white space at both ends.
pub open spec fn trim(s: Seq<char>) -> Seq<char> {
    trim_end(trim_start(s))
}

/// `s` without the white space at its beginning.
pub fn trimmed_start<'a>(s: &'a [char]) -> (r: &'a [char])
    ensures
        r@ == trim_start(s@),
        r@.len() <= s@.len(),
{
    let mut i: usize = 0;
    assert(s@.skip(0) == s@);
    while i < s.len() && is_whitespace(s[i])
        invariant
            i <= s@.len(),
            trim_start(s@) == trim_start(s@.skip(i as int)),
        decreases s@.len() - i,
    {
        assert(s@.skip(i as int).drop_first() == s@.skip(i + 1));
        i = i + 1;
    }
    assert(s@.skip(i as int) == s@.subrange(i as int, s@.len() as int));
    part(s, i, s.len())
}

/// `s` without the white space at its end.
pub fn trimmed_end<'a>(s: &'a [char]) -> (r: &'a [char])
    ensures
        r@ == trim_end(s@),
        r@.len() <= s@.len(),
{
    let mut n: usize = s.len();
    assert(s@.take(n as int) == s@);
    while n > 0 && is_whitespace(s[n - 1])
        invariant
            n <= s@.len(),
            trim_end(s@) == trim_end(s@.take(n as int)),
        decreases n,
    {
        assert(s@.take(n as int).drop_last() == s@.take(n - 1));
        n = n - 1;
    }
    assert(s@.take(n as int) == s@.subrange(0, n as int));
    part(s, 0, n)
}

/// `s` without the white space at both ends.
pub fn trimmed<'a>(s: &'a [char]) -> (r: &'a [char])
    ensures
        r@ == trim(s@),
        r@.len() <= s@.len(),
{
    trimmed_end(trimmed_start(s))
}

/// `s` without the characters `c` at its end.
pub open spec fn trim_end_char(s: Seq<char>, c: char) -> Seq<char>
    decreases s.len(),
{
    if s.len() > 0 && s.last() == c {
        trim_end_char(s.drop_last(), c)
    } else {
        s
    }
}

/// `s` without the characters `c` at its beginning.
pub open spec fn trim_start_char(s: Seq<char>, c: char) -> Seq<char>
    decreases s.len(),
{
    if s.len() > 0 && s[0] == c {
        trim_start_char(s.drop_first(), c)
    } else {
        s
    }
}

/// `s` without the characters `c` at its end.
pub fn trimmed_end_char<'a>(s: &'a [char], c: char) -> (r: &'a [char])
    ensures
        r@ == trim_end_char(s@, c),
{
    let mut n: usize = s.len();
    assert(s@.take(n as int) == s@);
    while n > 0 && s[n - 1] == c
        invariant
            n <= s@.len(),
            trim_end_char(s@, c) == trim_end_char(s@.take(n as int), c),
        decreases n,
    {
        assert(s@.take(n as int).drop_last() == s@.take(n - 1));
        n = n - 1;
    }
    assert(s@.take(n as int) == s@.subrange(0, n as int));
    part(s, 0, n)
}

/// `s` without the characters `c` at its beginning.
pub fn trimmed_start_char<'a>(s: &'a [char], c: char) -> (r: &'a [char])
    ensures
        r@ == trim_start_char(s@, c),
{
    let mut i: usize = 0;
    assert(s@.skip(0) == s@);
    while i < s.len() && s[i] == c
        invariant
            i <= s@.len(),
            trim_start_char(s@, c) == trim_start_char(s@.skip(i as int), c),
        decreases s@.len() - i,
    {
        assert(s@.skip(i as int).drop_first() == s@.skip(i + 1));
        i = i + 1;
    }
    assert(s@.skip(i as int) == s@.subrange(i as int, s@.len() as int));
    part(s, i, s.len())
}

/// Whether `s` holds nothing but white space.
pub fn is_blank(s: &[char]) -> (r: bool)
    ensures
        r == (trim(s@).len() == 0),
{
    trimmed(s).len() == 0
}

// ---- Letters ---------------------------------------------------------------

/// The lower-case form of an ASCII letter; any other character is kept.
pub open spec fn ascii_lower(c: char) -> char {
    if 'A' as u32 <= c as u32 <= 'Z' as u32 {
        (c as u32 + 32) as char
    } else {
        c
    }
}

/// `s` with its ASCII letters in lower case.
pub open spec fn lowered(s: Seq<char>) -> Seq<char> {
    Seq::new(s.len(), |i: int| ascii_lower(s[i]))
}

/// The lower-case form of an ASCII letter; any other character is kept.
pub fn lower_char(c: char) -> (r: char)
    ensures
        r == ascii_lower(c),
{
    let u: u32 = c as u32;
    if 0x41 <= u && u <= 0x5a {
        (u as u8 + 32) as char
    } else {
        c
    }
}

/// `s` with its ASCII letters in lower case.
pub fn lowercase(s: &[char]) -> (r: Vec<char>)
    ensures
        r@ == lowered(s@),
{
    let mut out: Vec<char> = Vec::new();
    let mut i: usize = 0;
    while i < s.len()
        invariant
            i <= s@.len(),
            out@ == lowered(s@).take(i as int),
        decreases s@.len() - i,
    {
        out.push(lower_char(s[i]));
        i = i + 1;
    }
    assert(lowered(s@).take(s@.len() as int) == lowered(s@));
    out
}

// ---- Runs ------------------------------------------------------------------

/// How many characters at the beginning of `s` satisfy `f`.
pub open spec fn run(s: Seq<char>, f: spec_fn(char) -> bool) -> nat
    decreases s.len(),
{
    if s.len() > 0 && f(s[0]) {
        1 + run(s.drop_first(), f)
    } else {
        0
    }
}

/// A run is the longest prefix whose characters all satisfy `f`.
pub proof fn lemma_run(s: Seq<char>, f: spec_fn(char) -> bool)
    ensures
        run(s, f) <= s.len(),
        forall|i: int| 0 <= i < run(s, f) ==> f(#[trigger] s[i]),
        run(s, f) < s.len() ==> !f(s[run(s, f) as int]),
    decreases s.len(),
{
    if s.len() > 0 && f(s[0]) {
        let t = s.drop_first();
        lemma_run(t, f);
        assert forall|i: int| 0 <= i < run(s, f) implies f(#[trigger] s[i]) by {
            if i > 0 {
                assert(s[i] == t[i - 1]);
            }
        }
        if run(s, f) < s.len() {
            assert(s[run(s, f) as int] == t[run(t, f) as int]);
        }
    }
}

/// The longest prefix is unique.
pub proof fn lemma_run_is(s: Seq<char>, f: spec_fn(char) -> bool, n: nat)
    requires
        n <= s.len(),
        forall|i: int| 0 <= i < n ==> f(#[trigger] s[i]),
        n < s.len() ==> !f(s[n as int]),
    ensures
        run(s, f) == n,
{
    lemma_run(s, f);
    let r = run(s, f);
    if r < n {
        assert(f(s[r as int]));
    } else if n < r {
        assert(f(s[n as int]));
    }
}

// ---- Facts about lines and white space --------------------------------------

/// Where the first line ends in a text that begins with `line` and a line break.
pub proof fn lemma_first_line(line: Seq<char>, rest: Seq<char>)
    requires
        !line.contains('\n'),
    ensures
        split_once(line + seq!['\n'] + rest, seq!['\n']) == Some((line, rest)),
        lines(line + seq!['\n'] + rest) == seq![strip_cr(line)] + lines(rest),
{
    let newline = seq!['\n'];
    let s = line + newline + rest;
    let at = line.len() as int;
    assert(s.subrange(at, at + 1) == newline);
    assert forall|k: int| 0 <= k < at implies !#[trigger] matches_at(s, newline, k) by {
        if matches_at(s, newline, k) {
            assert(s.subrange(k, k + 1)[0] == '\n');
            assert(line[k] == s[k]);
            assert(line.contains(line[k]));
        }
    }
    lemma_find_is(s, newline, at);
    assert(s.take(at) == line);
    assert(s.skip(at + 1) == rest);
}

/// The lines of a text whose first part ends with a line break are those of
/// its two parts.
pub proof fn lemma_lines_concat(a: Seq<char>, b: Seq<char>)
    requires
        a.len() == 0 || a.last() == '\n',
    ensures
        lines(a + b) == lines(a) + lines(b),
    decreases a.len(),
{
    let newline = seq!['\n'];
    if a.len() == 0 {
        assert(a + b == b);
        assert(lines(a) + lines(b) == lines(b));
    } else {
        lemma_find(a, newline);
        let last = a.len() - 1;
        assert(a.subrange(last, last + 1) == newline);
        assert(matches_at(a, newline, last));
        assert(contains(a, newline));
        let at = find(a, newline)->0;
        let line = a.take(at);
        let rest = a.skip(at + 1);
        assert(a.subrange(at, at + 1)[0] == '\n');
        assert(a == line + newline + rest);
        assert(!line.contains('\n')) by {
            if line.contains('\n') {
                let k = choose|k: int| 0 <= k < line.len() && line[k] == '\n';
                assert(a.subrange(k, k + 1) == newline);
                assert(matches_at(a, newline, k));
            }
        }
        lemma_first_line(line, rest);
        lemma_first_line(line, rest + b);
        assert(a + b == line + newline + (rest + b));
        assert(rest.len() > 0 ==> rest.last() == a.last());
        lemma_lines_concat(rest, b);
        assert(lines(a + b) == seq![strip_cr(line)] + (lines(rest) + lines(b)));
        assert(lines(a) + lines(b) == seq![strip_cr(line)] + lines(rest) + lines(b));
    }
}

/// A text that neither begins nor ends with white space is its own trim.
pub proof fn lemma_trim_keeps(s: Seq<char>)
    requires
        s.len() == 0 || !is_space(s[0]) && !is_space(s.last()),
    ensures
        trim(s) == s,
{
}

proof fn lemma_trim_end_ends(s: Seq<char>)
    ensures
        trim_end(s).len() <= s.len(),
        trim_end(s) == s.take(trim_end(s).len() as int),
        trim_end(s).len() > 0 ==> !is_space(trim_end(s).last()),
    decreases s.len(),
{
    if s.len() > 0 && is_space(s.last()) {
        lemma_trim_end_ends(s.drop_last());
        assert(trim_end(s) == s.take(trim_end(s).len() as int));
    } else {
        assert(s.take(s.len() as int) == s);
    }
}

proof fn lemma_trim_start_ends(s: Seq<char>)
    ensures
        trim_start(s).len() <= s.len(),
        trim_start(s).len() > 0 ==> !is_space(trim_start(s)[0]),
    decreases s.len(),
{
    if s.len() > 0 && is_space(s[0]) {
        lemma_trim_start_ends(s.drop_first());
    }
}

/// What is left after a trim neither begins nor ends with white space.
pub proof fn lemma_trimmed_ends(s: Seq<char>)
    ensures
        trim(s).len() <= s.len(),
        trim(s).len() > 0 ==> !is_space(trim(s)[0]) && !is_space(trim(s).last()),
{
    lemma_trim_start_ends(s);
    lemma_trim_end_ends(trim_start(s));
}

} // verus!
