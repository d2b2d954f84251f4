//! Slash-separated file paths as text.

use crate::text::{lemma_rfind_upto, part, push_all, rcut, rfind, rfind_text, rsplit_once};
use crate::text_facts::{lemma_char_is_absent, lemma_cut_at_last};
use vstd::prelude::*;

verus! {

/// `path` without what does not count at its end: slashes, and `.` components
/// after a slash.
pub open spec fn without_tail(path: Seq<char>) -> Seq<char>
    decreases path.len(),
{
    if path.len() > 0 && path.last() == '/' {
        without_tail(path.drop_last())
    } else if path.len() > 1 && path.last() == '.' && path[path.len() - 2] == '/' {
        without_tail(path.take(path.len() - 2))
    } else {
        path
    }
}

/// What stands after the last slash of `path`.
pub open spec fn after_slash(path: Seq<char>) -> Seq<char> {
    match rsplit_once(path, seq!['/']) {
        Some((_, name)) => name,
        None => path,
    }
}

/// The last component of a path, if it is a name.
pub open spec fn file_name(path: Seq<char>) -> Option<Seq<char>> {
    let name = after_slash(without_tail(path));
    if name.len() == 0 || name == seq!['.'] || name == seq!['.', '.'] {
        None
    } else {
        Some(name)
    }
}

/// What stands after the last dot of the file name, where something stands
/// before the dot.
pub open spec fn extension(path: Seq<char>) -> Option<Seq<char>> {
    match file_name(path) {
        None => None,
        Some(name) => match rfind(name, seq!['.']) {
            Some(i) if i > 0 => Some(name.skip(i + 1)),
            _ => None,
        },
    }
}

/// The file name without its extension.
pub open spec fn file_stem(path: Seq<char>) -> Option<Seq<char>> {
    match file_name(path) {
        None => None,
        Some(name) => match rfind(name, seq!['.']) {
            Some(i) if i > 0 => Some(name.take(i)),
            _ => Some(name),
        },
    }
}

/// Whether a path starts at the root.
pub open spec fn is_absolute(path: Seq<char>) -> bool {
    path.len() > 0 && path[0] == '/'
}

/// `path`, which is taken from `base` where it is not absolute.
pub open spec fn joined(base: Seq<char>, path: Seq<char>) -> Seq<char> {
    if is_absolute(path) {
        path
    } else if base.len() > 0 && base.last() != '/' {
        base + seq!['/'] + path
    } else {
        base + path
    }
}

/// The last component of a path, if it is a name.
pub fn file_name_of<'a>(path: &'a [char]) -> (r: Option<&'a [char]>)
    ensures
        r matches Some(name) ==> file_name(path@) == Some(name@),
        r is None ==> file_name(path@) is None,
{
    let mut n: usize = path.len();
    assert(path@.take(n as int) == path@);
    loop
        invariant
            n <= path@.len(),
            without_tail(path@) == without_tail(path@.take(n as int)),
        ensures
            n <= path@.len(),
            without_tail(path@) == path@.take(n as int),
        decreases n,
    {
        let ghost cur = path@.take(n as int);
        if n > 0 && path[n - 1] == '/' {
            assert(cur.drop_last() == path@.take(n - 1));
            n = n - 1;
        } else if n > 1 && path[n - 1] == '.' && path[n - 2] == '/' {
            assert(cur.take(n - 2) == path@.take(n - 2));
            n = n - 2;
        } else {
            break;
        }
    }
    let kept = part(path, 0, n);
    assert(kept@ == path@.take(n as int));
    let slash: Vec<char> = vec!['/'];
    assert(slash@ == seq!['/']);
    let name = match rcut(kept, &slash) {
        Some((_, name)) => name,
        None => kept,
    };
    assert(name@ == after_slash(without_tail(path@)));
    proof {
        if name@.len() == 1 && name@[0] == '.' {
            assert(name@ == seq!['.']);
        }
        if name@.len() == 2 && name@[0] == '.' && name@[1] == '.' {
            assert(name@ == seq!['.', '.']);
        }
    }
    if name.len() == 0 || (name.len() == 1 && name[0] == '.') || (name.len() == 2 && name[0] == '.'
        && name[1] == '.') {
        None
    } else {
        Some(name)
    }
}

/// What stands after the last dot of the file name.
pub fn extension_of<'a>(path: &'a [char]) -> (r: Option<&'a [char]>)
    ensures
        r matches Some(ext) ==> extension(path@) == Some(ext@),
        r is None ==> extension(path@) is None,
{
    let dot: Vec<char> = vec!['.'];
    assert(dot@ == seq!['.']);
    match file_name_of(path) {
        None => None,
        Some(name) => match rfind_text(name, &dot) {
            Some(i) if i > 0 => {
                let n: usize = name.len();
                let ext = part(name, i + 1, n);
                assert(ext@ == name@.skip(i + 1));
                Some(ext)
            },
            _ => None,
        },
    }
}

/// The file name without its extension.
pub fn file_stem_of<'a>(path: &'a [char]) -> (r: Option<&'a [char]>)
    ensures
        r matches Some(stem) ==> file_stem(path@) == Some(stem@),
        r is None ==> file_stem(path@) is None,
{
    let dot: Vec<char> = vec!['.'];
    assert(dot@ == seq!['.']);
    match file_name_of(path) {
        None => None,
        Some(name) => match rfind_text(name, &dot) {
            Some(i) if i > 0 => {
                let stem = part(name, 0, i);
                assert(stem@ == name@.take(i as int));
                Some(stem)
            },
            _ => Some(name),
        },
    }
}

/// `path`, which is taken from `base` where it is not absolute.
pub fn join_path(base: &[char], path: &[char]) -> (r: Vec<char>)
    ensures
        r@ == joined(base@, path@),
{
    let mut out: Vec<char> = Vec::new();
    if path.len() > 0 && path[0] == '/' {
        push_all(&mut out, path);
    } else {
        push_all(&mut out, base);
        if base.len() > 0 && base[base.len() - 1] != '/' {
            out.push('/');
            assert(out@ == base@ + seq!['/']);
        }
        push_all(&mut out, path);
    }
    out
}

// ---- Laws ------------------------------------------------------------------

/// Whether a text can be the name of a file.
pub open spec fn is_name(name: Seq<char>) -> bool {
    &&& name.len() > 0 && !name.contains('/')
    &&& name != seq!['.'] && name != seq!['.', '.']
}

/// Nothing is taken from the end of a path that ends with a name.
proof fn lemma_name_is_no_tail(path: Seq<char>, name: Seq<char>)
    requires
        is_name(name),
        path.len() >= name.len(),
        path.skip(path.len() - name.len()) == name,
    ensures
        without_tail(path) == path,
{
    let n = path.len() - name.len();
    assert(path.last() == name.last());
    assert(name.contains(name.last()));
    if name.last() == '.' {
        if name.len() == 1 {
            assert(name == seq!['.']);
        } else {
            assert(path[path.len() - 2] == name[name.len() - 2]);
            assert(name.contains(name[name.len() - 2]));
        }
    }
}

/// The file name of a path is what stands behind its last slash, or all of it.
pub proof fn law_file_name_is_the_last_part(before: Seq<char>, name: Seq<char>)
    requires
        is_name(name),
    ensures
        file_name(before + seq!['/'] + name) == Some(name),
        file_name(name) == Some(name),
{
    let path = before + seq!['/'] + name;
    assert(path.skip(path.len() - name.len()) == name);
    lemma_name_is_no_tail(path, name);
    lemma_cut_at_last(before, '/', name);
    assert(name.skip(0) == name);
    lemma_name_is_no_tail(name, name);
    lemma_char_is_absent(name, '/');
}

/// A name of two parts around its last point has the first as its stem and the
/// second as its extension; a name without a point is all stem.
pub proof fn law_stem_and_extension(before: Seq<char>, stem: Seq<char>, ext: Seq<char>)
    requires
        stem.len() > 0,
        !ext.contains('.'),
        is_name(stem + seq!['.'] + ext),
    ensures
        file_stem(stem + seq!['.'] + ext) == Some(stem),
        extension(stem + seq!['.'] + ext) == Some(ext),
        file_stem(before + seq!['/'] + (stem + seq!['.'] + ext)) == Some(stem),
        extension(before + seq!['/'] + (stem + seq!['.'] + ext)) == Some(ext),
        is_name(stem) && !stem.contains('.') ==> file_stem(before + seq!['/'] + stem) == Some(stem)
            && extension(before + seq!['/'] + stem) is None,
{
    let name = stem + seq!['.'] + ext;
    law_file_name_is_the_last_part(before, name);
    lemma_cut_at_last(stem, '.', ext);
    lemma_rfind_upto(name, seq!['.'], name.len() - 1);
    let i = rfind(name, seq!['.'])->0;
    assert(rsplit_once(name, seq!['.']) == Some((name.take(i), name.skip(i + 1))));
    assert(name.take(i).len() == i);
    if is_name(stem) && !stem.contains('.') {
        law_file_name_is_the_last_part(before, stem);
        lemma_char_is_absent(stem, '.');
    }
}

/// A path that is taken from another lies below it, with one slash between them;
/// an absolute one stays as it is.
pub proof fn law_joined_path_lies_below(base: Seq<char>, path: Seq<char>)
    requires
        base.len() > 0,
    ensures
        is_absolute(path) ==> joined(base, path) == path,
        !is_absolute(path) && base.last() != '/' ==> joined(base, path) == base + seq!['/'] + path,
        !is_absolute(path) && base.last() == '/' ==> joined(base, path) == base + path,
        is_absolute(path) <==> path.len() > 0 && path[0] == '/',
{
}

/// Slashes at the end of a path, and the directory itself named by a point, do not count.
pub proof fn law_tails_do_not_count(path: Seq<char>)
    ensures
        file_name(path + seq!['/']) == file_name(path),
        file_name(path + seq!['/', '.']) == file_name(path),
        extension(path + seq!['/']) == extension(path),
        file_stem(path + seq!['/']) == file_stem(path),
{
    let a = path + seq!['/'];
    let b = path + seq!['/', '.'];
    assert(a.drop_last() == path);
    assert(b.take(b.len() - 2) == path);
    assert(without_tail(a) == without_tail(path));
    assert(without_tail(b) == without_tail(path));
}

/// A name that begins with its only point has no extension: all of it is the stem.
pub proof fn law_hidden_files_have_no_extension(before: Seq<char>, rest: Seq<char>)
    requires
        rest.len() > 0,
        !rest.contains('.') && !rest.contains('/'),
    ensures
        extension(before + seq!['/'] + (seq!['.'] + rest)) is None,
        file_stem(before + seq!['/'] + (seq!['.'] + rest)) == Some(seq!['.'] + rest),
{
    let name = seq!['.'] + rest;
    assert(is_name(name)) by {
        if name.contains('/') {
            let k = choose|k: int| 0 <= k < name.len() && name[k] == '/';
            assert(rest.contains(rest[k - 1]));
        }
        assert(name[1] == rest[0]);
        assert(rest.contains(rest[0]));
        assert(name.len() >= 2);
    }
    law_file_name_is_the_last_part(before, name);
    let none = Seq::<char>::empty();
    lemma_cut_at_last(none, '.', rest);
    assert(none + seq!['.'] + rest == name);
    lemma_rfind_upto(name, seq!['.'], name.len() - 1);
    let i = rfind(name, seq!['.'])->0;
    assert(rsplit_once(name, seq!['.']) == Some((name.take(i), name.skip(i + 1))));
    assert(name.take(i).len() == i);
}

} // verus!
