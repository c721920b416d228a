//! Paths of the sandbox, held as text, joined the way `Path::join` joins them
//! on Unix (`/`) or on Windows (`\`, with drive letters and `\\` prefixes).
use vstd::prelude::*;
use crate::text::{chars_of, concat, owned, push_char, slice_chars, string_of};

verus! {

/// A path separator: `/`, and on Windows also `\`.
pub open spec fn is_sep(c: char, windows: bool) -> bool {
    c == '/' || (windows && c == '\\')
}

/// An ASCII letter.
pub open spec fn is_ascii_alpha(c: char) -> bool {
    let u = c as u32;
    (0x41 <= u && u <= 0x5a) || (0x61 <= u && u <= 0x7a)
}

/// A Windows path that starts with a drive prefix such as `C:`.
pub open spec fn has_drive(p: Seq<char>) -> bool {
    p.len() >= 2 && is_ascii_alpha(p[0]) && p[1] == ':'
}

/// A Windows path with a prefix: a drive (`C:`) or one that starts with two
/// separators (`\\server\share`, `\\?\...`, `\\.\...`).
pub open spec fn has_win_prefix(p: Seq<char>) -> bool {
    has_drive(p) || (p.len() >= 2 && is_sep(p[0], true) && is_sep(p[1], true))
}

/// `Path::join` on text.
///
/// On Unix an absolute `b` replaces `a`; otherwise `b` is appended, with a
/// `/` unless `a` is empty or already ends with one.
///
/// On Windows a `b` with a prefix replaces `a`; a `b` that starts with a
/// separator keeps only the drive of `a`; otherwise `b` is appended, with a
/// `\` unless `a` is empty, ends with a separator or is a bare drive.
pub open spec fn join_path(a: Seq<char>, b: Seq<char>, windows: bool) -> Seq<char> {
    if !windows {
        if b.len() > 0 && b[0] == '/' {
            b
        } else if a.len() == 0 {
            b
        } else if a.last() == '/' {
            a + b
        } else {
            a + seq!['/'] + b
        }
    } else if has_win_prefix(b) {
        b
    } else if b.len() > 0 && is_sep(b[0], true) {
        if has_drive(a) {
            a.take(2) + b
        } else {
            b
        }
    } else if a.len() == 0 || is_sep(a.last(), true) || (has_drive(a) && a.len() == 2) {
        a + b
    } else {
        a + seq!['\\'] + b
    }
}

/// The index of the last separator of a path, or -1.
pub open spec fn last_sep_index(p: Seq<char>, windows: bool) -> int
    decreases p.len(),
{
    if p.len() == 0 {
        -1
    } else if is_sep(p.last(), windows) {
        p.len() - 1
    } else {
        last_sep_index(p.drop_last(), windows)
    }
}

/// The last component of a path: the text after its last separator.
pub open spec fn file_name(p: Seq<char>, windows: bool) -> Seq<char> {
    p.skip(last_sep_index(p, windows) + 1)
}

fn is_sep_exec(c: char, windows: bool) -> (r: bool)
    ensures
        r == is_sep(c, windows),
{
    c == '/' || (windows && c == '\\')
}

fn has_drive_exec(v: &Vec<char>) -> (r: bool)
    ensures
        r == has_drive(v@),
{
    if v.len() < 2 {
        return false;
    }
    let u = v[0] as u32;
    ((0x41 <= u && u <= 0x5a) || (0x61 <= u && u <= 0x7a)) && v[1] == ':'
}

/// `Path::join`.
pub fn join(a: &str, b: &str, windows: bool) -> (r: String)
    ensures
        r@ == join_path(a@, b@, windows),
{
    let av = chars_of(a);
    let bv = chars_of(b);
    if !windows {
        if bv.len() > 0 && bv[0] == '/' {
            owned(b)
        } else if av.len() == 0 {
            owned(b)
        } else if av[av.len() - 1] == '/' {
            concat(a, b)
        } else {
            let mut r = owned(a);
            push_char(&mut r, '/');
            r.append(b);
            r
        }
    } else if has_drive_exec(&bv) || (bv.len() >= 2 && is_sep_exec(bv[0], true) && is_sep_exec(
        bv[1],
        true,
    )) {
        owned(b)
    } else if bv.len() > 0 && is_sep_exec(bv[0], true) {
        if has_drive_exec(&av) {
            let d = string_of(&slice_chars(&av, 0, 2));
            assert(av@.subrange(0, 2) == av@.take(2));
            concat(d.as_str(), b)
        } else {
            owned(b)
        }
    } else if av.len() == 0 || is_sep_exec(av[av.len() - 1], true) || (has_drive_exec(&av)
        && av.len() == 2) {
        concat(a, b)
    } else {
        let mut r = owned(a);
        push_char(&mut r, '\\');
        r.append(b);
        r
    }
}

/// The last component of a path.
pub fn file_name_of(p: &str, windows: bool) -> (r: String)
    ensures
        r@ == file_name(p@, windows),
{
    let v = chars_of(p);
    let mut k: usize = v.len();
    assert(v@.take(k as int) == v@);
    while k > 0 && !is_sep_exec(v[k - 1], windows)
        invariant
            k <= v.len(),
            last_sep_index(v@, windows) == last_sep_index(v@.take(k as int), windows),
        decreases k,
    {
        assert(v@.take(k as int).drop_last() == v@.take(k - 1));
        k -= 1;
    }
    if k > 0 {
        assert(is_sep(v@.take(k as int).last(), windows));
    } else {
        assert(v@.take(0) == Seq::<char>::empty());
    }
    assert(v@.subrange(k as int, v@.len() as int) == v@.skip(k as int));
    let t = slice_chars(&v, k, v.len());
    string_of(&t)
}

} // verus!
