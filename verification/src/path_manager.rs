//! Putting the sandbox's `bin` directory on the user's PATH, and taking it
//! off again: in shell profiles on Unix, in the `Path` value of the user's
//! environment on Windows.
use vstd::prelude::*;
use crate::paths::{join, join_path};
use crate::text::{
    chars_of, concat, contains, contains_chars, contains_str, ends_with, ends_with_str,
    eq_ignore_ascii_case, eq_ignore_ascii_case_chars, is_ws, join as join_spec, join_chars,
    lines, lines_chars, occurs_at, owned, strip_cr, lemma_join_split, split_char, split_chars, string_of, trim, trim_chars,
    trim_end, trim_start,
};

verus! {

/// Where the sandbox's `bin` directory lives.
pub struct PathManager {
    pub sandbox_bin_path: String,
}

/// Whether the sandbox is reachable from the PATH, and what its `bin`
/// directory holds.
pub struct PathBroadcastStatus {
    pub in_user_path: bool,
    pub bin_dir_exists: bool,
    pub symlink_count: usize,
    pub sandbox_path: String,
}

/// A shell profile: its path and its contents, or `None` when it does not
/// exist.
pub struct ShellProfile {
    pub path: String,
    pub contents: Option<String>,
}

/// New contents for a shell profile.
pub struct ProfileWrite {
    pub path: String,
    pub contents: String,
}

/// The profile writes that put the sandbox on the PATH, and whether any
/// profile changed.
pub struct InjectPlan {
    pub writes: Vec<ProfileWrite>,
    pub injected: bool,
}

// ---------------------------------------------------------------------------
// Models
// ---------------------------------------------------------------------------

/// A `;`-separated list of directories names `entry`, ignoring surrounding
/// whitespace and ASCII case.
pub open spec fn path_list_contains(list: Seq<char>, entry: Seq<char>) -> bool {
    exists|k: int|
        0 <= k < split_char(list, ';').len() && eq_ignore_ascii_case(
            trim(#[trigger] split_char(list, ';')[k]),
            entry,
        )
}

/// The line a shell profile receives.
pub open spec fn export_line(sandbox: Seq<char>) -> Seq<char> {
    "export PATH=\""@ + sandbox + ":$PATH\""@
}

/// The comment line that precedes the export line.
pub open spec fn marker_line() -> Seq<char> {
    "# DevIgnite sandbox path"@
}

/// The new contents of a profile that puts the sandbox on the PATH, or
/// `None` when the profile already mentions the sandbox.
pub open spec fn injected_profile(contents: Option<Seq<char>>, sandbox: Seq<char>) -> Option<
    Seq<char>,
> {
    match contents {
        None => Some(export_line(sandbox) + "\n"@),
        Some(c) => if contains(c, sandbox) {
            None
        } else {
            let base = if ends_with(c, "\n"@) {
                c
            } else {
                c + "\n"@
            };
            Some(base + "\n"@ + marker_line() + "\n"@ + export_line(sandbox) + "\n"@)
        },
    }
}

/// A profile line survives removal unless it mentions the sandbox or is the
/// marker comment.
pub open spec fn keeps_line(line: Seq<char>, sandbox: Seq<char>) -> bool {
    !contains(line, sandbox) && trim(line) != marker_line()
}

/// The lines that survive removal, in order.
pub open spec fn kept_lines(ls: Seq<Seq<char>>, sandbox: Seq<char>) -> Seq<Seq<char>>
    decreases ls.len(),
{
    if ls.len() == 0 {
        ls
    } else if keeps_line(ls.last(), sandbox) {
        kept_lines(ls.drop_last(), sandbox).push(ls.last())
    } else {
        kept_lines(ls.drop_last(), sandbox)
    }
}

/// The contents of a profile after the sandbox is taken off the PATH.
pub open spec fn cleaned_profile(contents: Seq<char>, sandbox: Seq<char>) -> Seq<char> {
    trim(join_spec(kept_lines(lines(contents), sandbox), "\n"@)) + "\n"@
}

/// The pieces of a `;`-separated list, each trimmed.
pub open spec fn trimmed_entries(list: Seq<char>) -> Seq<Seq<char>> {
    split_char(list, ';').map_values(|p: Seq<char>| trim(p))
}

/// The trimmed entries that do not name `entry`, in order.
pub open spec fn other_entries(es: Seq<Seq<char>>, entry: Seq<char>) -> Seq<Seq<char>>
    decreases es.len(),
{
    if es.len() == 0 {
        es
    } else if eq_ignore_ascii_case(es.last(), entry) {
        other_entries(es.drop_last(), entry)
    } else {
        other_entries(es.drop_last(), entry).push(es.last())
    }
}

/// The Windows `Path` value with the sandbox added, or `None` when it is
/// already there.
pub open spec fn injected_path_value(current: Seq<char>, sandbox: Seq<char>) -> Option<Seq<char>> {
    if path_list_contains(current, sandbox) {
        None
    } else if current.len() == 0 {
        Some(sandbox)
    } else {
        Some(current + seq![';'] + sandbox)
    }
}

/// The Windows `Path` value with the sandbox removed.
pub open spec fn cleaned_path_value(current: Seq<char>, sandbox: Seq<char>) -> Seq<char> {
    join_spec(other_entries(trimmed_entries(current), sandbox), seq![';'])
}

/// The profiles that the sandbox path goes into, for the `SHELL` variable.
pub open spec fn shell_profile_paths(home: Seq<char>, shell: Option<Seq<char>>) -> Seq<Seq<char>> {
    match shell {
        Some(sh) => if contains(sh, "zsh"@) {
            seq![join_path(home, ".zshrc"@, false)]
        } else if contains(sh, "fish"@) {
            seq![
                join_path(
                    join_path(join_path(home, ".config"@, false), "fish"@, false),
                    "config.fish"@,
                    false,
                ),
            ]
        } else {
            seq![join_path(home, ".bashrc"@, false)]
        },
        None => seq![join_path(home, ".bashrc"@, false), join_path(home, ".zshrc"@, false)],
    }
}

/// The number of `true` flags.
pub open spec fn count_true(flags: Seq<bool>) -> nat
    decreases flags.len(),
{
    if flags.len() == 0 {
        0
    } else {
        count_true(flags.drop_last()) + if flags.last() {
            1nat
        } else {
            0nat
        }
    }
}

/// A directory text that can stand in a `;`-separated list: no `;`, and
/// nothing to trim.
pub open spec fn is_list_entry(s: Seq<char>) -> bool {
    &&& s.len() > 0
    &&& forall|i: int| 0 <= i < s.len() ==> #[trigger] s[i] != ';'
    &&& trim(s) == s
}

// ---------------------------------------------------------------------------
// Lemmas
// ---------------------------------------------------------------------------

proof fn lemma_contains_suffix(a: Seq<char>, b: Seq<char>, p: Seq<char>)
    requires
        contains(b, p),
    ensures
        contains(a + b, p),
{
    let i = choose|i: int| #[trigger] occurs_at(b, p, i);
    assert((a + b).subrange(a.len() + i, a.len() + i + p.len()) == b.subrange(i, i + p.len()));
    assert(occurs_at(a + b, p, a.len() + i));
}

proof fn lemma_contains_prefix(a: Seq<char>, b: Seq<char>, p: Seq<char>)
    requires
        contains(a, p),
    ensures
        contains(a + b, p),
{
    let i = choose|i: int| #[trigger] occurs_at(a, p, i);
    assert((a + b).subrange(i, i + p.len()) == a.subrange(i, i + p.len()));
    assert(occurs_at(a + b, p, i));
}

proof fn lemma_contains_self(p: Seq<char>)
    ensures
        contains(p, p),
{
    assert(p.subrange(0, p.len() as int) == p);
    assert(occurs_at(p, p, 0));
}

/// An occurrence in a subrange is an occurrence in the whole.
proof fn lemma_contains_sub(s: Seq<char>, a: int, b: int, p: Seq<char>)
    requires
        0 <= a <= b <= s.len(),
        contains(s.subrange(a, b), p),
    ensures
        contains(s, p),
{
    let i = choose|i: int| #[trigger] occurs_at(s.subrange(a, b), p, i);
    assert(s.subrange(a + i, a + i + p.len()) == s.subrange(a, b).subrange(i, i + p.len()));
    assert(occurs_at(s, p, a + i));
}

/// A pattern without `c` that occurs in `x + [c] + y` occurs in `x` or `y`.
proof fn lemma_contains_split(x: Seq<char>, c: char, y: Seq<char>, p: Seq<char>)
    requires
        contains(x + seq![c] + y, p),
        forall|j: int| 0 <= j < p.len() ==> #[trigger] p[j] != c,
    ensures
        contains(x, p) || contains(y, p),
{
    let s = x + seq![c] + y;
    let i = choose|i: int| #[trigger] occurs_at(s, p, i);
    if i + p.len() <= x.len() {
        assert(x.subrange(i, i + p.len()) == s.subrange(i, i + p.len()));
        assert(occurs_at(x, p, i));
    } else if i >= x.len() + 1 {
        let k = i - x.len() - 1;
        assert(y.subrange(k, k + p.len()) == s.subrange(i, i + p.len()));
        assert(occurs_at(y, p, k));
    } else {
        let j = x.len() - i;
        assert(s.subrange(i, i + p.len())[j] == s[x.len() as int]);
        assert(p[j] == c);
    }
}

/// A pattern without `c` occurs in none of the pieces, so not in their join.
proof fn lemma_join_free(ps: Seq<Seq<char>>, c: char, p: Seq<char>)
    requires
        p.len() > 0,
        forall|j: int| 0 <= j < p.len() ==> #[trigger] p[j] != c,
        forall|k: int| 0 <= k < ps.len() ==> !contains(#[trigger] ps[k], p),
    ensures
        !contains(join_spec(ps, seq![c]), p),
    decreases ps.len(),
{
    if ps.len() == 0 {
        let e = Seq::<char>::empty();
        assert forall|i: int| !#[trigger] occurs_at(e, p, i) by {}
    } else if ps.len() == 1 {
        assert(!contains(ps[0], p));
    } else {
        lemma_join_free(ps.drop_last(), c, p);
        assert(!contains(ps.last(), p));
        if contains(join_spec(ps, seq![c]), p) {
            lemma_contains_split(join_spec(ps.drop_last(), seq![c]), c, ps.last(), p);
        }
    }
}

proof fn lemma_trim_end_prefix(s: Seq<char>)
    ensures
        trim_end(s) == s.subrange(0, trim_end(s).len() as int),
        trim_end(s).len() <= s.len(),
    decreases s.len(),
{
    if s.len() > 0 && is_ws(s.last()) {
        lemma_trim_end_prefix(s.drop_last());
        assert(s.drop_last().subrange(0, trim_end(s).len() as int) == s.subrange(
            0,
            trim_end(s).len() as int,
        ));
    } else {
        assert(s.subrange(0, s.len() as int) == s);
    }
}

proof fn lemma_trim_start_suffix(s: Seq<char>)
    ensures
        trim_start(s) == s.subrange(s.len() - trim_start(s).len(), s.len() as int),
        trim_start(s).len() <= s.len(),
    decreases s.len(),
{
    if s.len() > 0 && is_ws(s[0]) {
        lemma_trim_start_suffix(s.drop_first());
        let n = trim_start(s).len();
        assert(s.drop_first().subrange(s.drop_first().len() - n, s.drop_first().len() as int)
            == s.subrange(s.len() - n, s.len() as int));
    } else {
        assert(s.subrange(0, s.len() as int) == s);
    }
}

/// An occurrence in the trimmed text is an occurrence in the text.
proof fn lemma_contains_trim(s: Seq<char>, p: Seq<char>)
    requires
        contains(trim(s), p),
    ensures
        contains(s, p),
{
    let t = trim_start(s);
    lemma_trim_end_prefix(t);
    lemma_trim_start_suffix(s);
    lemma_contains_sub(t, 0, trim(s).len() as int, p);
    lemma_contains_sub(s, s.len() - t.len(), s.len() as int, p);
}

proof fn lemma_trim_idempotent(s: Seq<char>)
    ensures
        trim(trim(s)) == trim(s),
{
    crate::text::lemma_trim_edges(s);
    let t = trim(s);
    if t.len() > 0 {
        assert(trim_start(t) == t);
        assert(trim_end(t) == t);
    } else {
        assert(trim_start(t) == t);
    }
}

proof fn lemma_kept_lines_free(ls: Seq<Seq<char>>, sandbox: Seq<char>)
    ensures
        forall|k: int|
            0 <= k < kept_lines(ls, sandbox).len() ==> !contains(
                #[trigger] kept_lines(ls, sandbox)[k],
                sandbox,
            ),
    decreases ls.len(),
{
    if ls.len() > 0 {
        lemma_kept_lines_free(ls.drop_last(), sandbox);
        let r0 = kept_lines(ls.drop_last(), sandbox);
        if keeps_line(ls.last(), sandbox) {
            assert forall|k: int| 0 <= k < r0.push(ls.last()).len() implies !contains(
                #[trigger] r0.push(ls.last())[k],
                sandbox,
            ) by {
                if k < r0.len() {
                    assert(r0.push(ls.last())[k] == r0[k]);
                }
            }
        }
    }
}

/// Splitting `y + l` where `l` has no separator extends the last piece.
proof fn lemma_split_append_free(y: Seq<char>, l: Seq<char>, c: char)
    requires
        forall|j: int| 0 <= j < l.len() ==> #[trigger] l[j] != c,
    ensures
        split_char(y + l, c) == split_char(y, c).update(
            split_char(y, c).len() - 1,
            split_char(y, c).last() + l,
        ),
        split_char(y, c).len() >= 1,
    decreases l.len(),
{
    lemma_split_len(y, c);
    if l.len() == 0 {
        assert(y + l == y);
        assert(split_char(y, c).last() + l == split_char(y, c).last());
        assert(split_char(y, c).update(split_char(y, c).len() - 1, split_char(y, c).last())
            == split_char(y, c));
    } else {
        lemma_split_append_free(y, l.drop_last(), c);
        assert((y + l).drop_last() == y + l.drop_last());
        assert((y + l).last() == l.last());
        assert(split_char(y, c).last() + l == (split_char(y, c).last() + l.drop_last()).push(
            l.last(),
        ));
    }
}

proof fn lemma_split_len(s: Seq<char>, c: char)
    ensures
        split_char(s, c).len() >= 1,
    decreases s.len(),
{
    if s.len() > 0 {
        lemma_split_len(s.drop_last(), c);
    }
}

/// Joining pieces without the separator and splitting again gives the
/// pieces back.
proof fn lemma_split_join(ps: Seq<Seq<char>>, c: char)
    requires
        ps.len() >= 1,
        forall|k: int, j: int| 0 <= k < ps.len() && 0 <= j < ps[k].len() ==> #[trigger] ps[k][j] != c,
    ensures
        split_char(join_spec(ps, seq![c]), c) == ps,
    decreases ps.len(),
{
    if ps.len() == 1 {
        lemma_split_append_free(Seq::<char>::empty(), ps[0], c);
        assert(Seq::<char>::empty() + ps[0] == ps[0]);
        assert(split_char(Seq::<char>::empty(), c) == seq![Seq::<char>::empty()]);
        assert(split_char(ps[0], c) == ps);
    } else {
        let init = ps.drop_last();
        lemma_split_join(init, c);
        let x = join_spec(init, seq![c]);
        let y = x + seq![c];
        assert(y.drop_last() == x);
        assert(split_char(y, c) == split_char(x, c).push(Seq::<char>::empty()));
        assert forall|j: int| 0 <= j < ps.last().len() implies #[trigger] ps.last()[j] != c by {
            assert(ps[ps.len() - 1][j] != c);
        }
        lemma_split_append_free(y, ps.last(), c);
        assert(join_spec(ps, seq![c]) == y + ps.last());
        assert(split_char(y + ps.last(), c) == init.push(Seq::<char>::empty() + ps.last()));
        assert(Seq::<char>::empty() + ps.last() == ps.last());
        assert(init.push(ps.last()) == ps);
    }
}

proof fn lemma_other_entries_props(es: Seq<Seq<char>>, entry: Seq<char>)
    ensures
        forall|k: int|
            0 <= k < other_entries(es, entry).len() ==> !eq_ignore_ascii_case(
                #[trigger] other_entries(es, entry)[k],
                entry,
            ),
        forall|k: int|
            0 <= k < other_entries(es, entry).len() ==> exists|m: int|
                0 <= m < es.len() && #[trigger] other_entries(es, entry)[k] == es[m],
        other_entries(es, entry).len() <= es.len(),
    decreases es.len(),
{
    if es.len() > 0 {
        lemma_other_entries_props(es.drop_last(), entry);
        let r = other_entries(es, entry);
        let r0 = other_entries(es.drop_last(), entry);
        assert forall|k: int| 0 <= k < r.len() implies exists|m: int|
            0 <= m < es.len() && #[trigger] r[k] == es[m] by {
            if k < r0.len() {
                let m = choose|m: int| 0 <= m < es.drop_last().len() && r0[k] == es.drop_last()[m];
                assert(r[k] == es[m]);
            } else {
                assert(r[k] == es[es.len() - 1]);
            }
        }
    }
}

// ---------------------------------------------------------------------------
// Laws
// ---------------------------------------------------------------------------

/// After injection every profile mentions the sandbox directory: a profile
/// that is rewritten gets it, and one that is left alone already had it.
pub proof fn law_injected_profile_mentions_sandbox(contents: Option<Seq<char>>, sandbox: Seq<char>)
    ensures
        match injected_profile(contents, sandbox) {
            Some(n) => contains(n, sandbox),
            None => contents matches Some(c) && contains(c, sandbox),
        },
{
    lemma_contains_self(sandbox);
    lemma_contains_suffix("export PATH=\""@, sandbox, sandbox);
    lemma_contains_prefix("export PATH=\""@ + sandbox, ":$PATH\""@, sandbox);
    let e = export_line(sandbox);
    assert(contains(e, sandbox));
    lemma_contains_prefix(e, "\n"@, sandbox);
    match contents {
        None => {},
        Some(c) => {
            if !contains(c, sandbox) {
                let base = if ends_with(c, "\n"@) {
                    c
                } else {
                    c + "\n"@
                };
                let head = base + "\n"@ + marker_line() + "\n"@;
                lemma_contains_suffix(head, e + "\n"@, sandbox);
                assert(head + (e + "\n"@) == base + "\n"@ + marker_line() + "\n"@ + e + "\n"@);
            }
        },
    }
}

/// Injecting twice changes nothing the second time.
pub proof fn law_inject_idempotent(contents: Option<Seq<char>>, sandbox: Seq<char>)
    requires
        injected_profile(contents, sandbox) is Some,
    ensures
        injected_profile(Some(injected_profile(contents, sandbox)->0), sandbox) is None,
{
    law_injected_profile_mentions_sandbox(contents, sandbox);
}

/// After removal no part of a profile mentions the sandbox directory (for a
/// directory text that is not empty and has no line feed).
pub proof fn law_cleaned_profile_free_of_sandbox(contents: Seq<char>, sandbox: Seq<char>)
    requires
        sandbox.len() > 0,
        forall|j: int| 0 <= j < sandbox.len() ==> #[trigger] sandbox[j] != '\n',
    ensures
        !contains(cleaned_profile(contents, sandbox), sandbox),
{
    let ks = kept_lines(lines(contents), sandbox);
    lemma_kept_lines_free(lines(contents), sandbox);
    assert("\n"@ == seq!['\n']) by {
        reveal_strlit("\n");
    }
    lemma_join_free(ks, '\n', sandbox);
    let j = join_spec(ks, "\n"@);
    if contains(trim(j), sandbox) {
        lemma_contains_trim(j, sandbox);
    }
    if contains(trim(j) + "\n"@, sandbox) {
        assert(trim(j) + "\n"@ == trim(j) + seq!['\n'] + Seq::<char>::empty());
        lemma_contains_split(trim(j), '\n', Seq::<char>::empty(), sandbox);
        let e = Seq::<char>::empty();
        assert forall|i: int| !#[trigger] occurs_at(e, sandbox, i) by {}
    }
}

/// Splitting at `c` after appending `c` and then a piece without `c` adds
/// that piece.
proof fn lemma_split_push_piece(y: Seq<char>, l: Seq<char>, c: char)
    requires
        forall|j: int| 0 <= j < l.len() ==> #[trigger] l[j] != c,
    ensures
        split_char(y + seq![c] + l, c) == split_char(y, c).push(l),
{
    let y1 = y + seq![c];
    assert(y1.drop_last() == y);
    assert(split_char(y1, c) == split_char(y, c).push(Seq::<char>::empty()));
    lemma_split_append_free(y1, l, c);
    assert(Seq::<char>::empty() + l == l);
    assert(split_char(y1, c).update(split_char(y1, c).len() - 1, split_char(y1, c).last() + l)
        == split_char(y, c).push(l));
}

proof fn lemma_kept_all(ls: Seq<Seq<char>>, sandbox: Seq<char>)
    requires
        forall|k: int| 0 <= k < ls.len() ==> keeps_line(#[trigger] ls[k], sandbox),
    ensures
        kept_lines(ls, sandbox) == ls,
    decreases ls.len(),
{
    if ls.len() > 0 {
        lemma_kept_all(ls.drop_last(), sandbox);
        assert(keeps_line(ls[ls.len() - 1], sandbox));
        assert(ls.drop_last().push(ls.last()) == ls);
    }
}

proof fn lemma_no_cr_lines(x: Seq<char>)
    requires
        forall|i: int| 0 <= i < x.len() ==> x[i] != '\r',
    ensures
        split_char(x, '\n').map_values(|l: Seq<char>| strip_cr(l)) == split_char(x, '\n'),
        forall|k: int, j: int|
            0 <= k < split_char(x, '\n').len() && 0 <= j < split_char(x, '\n')[k].len()
                ==> #[trigger] split_char(x, '\n')[k][j] != '\r',
    decreases x.len(),
{
    if x.len() > 0 {
        lemma_no_cr_lines(x.drop_last());
        lemma_split_len(x.drop_last(), '\n');
    }
    let p = split_char(x, '\n');
    assert forall|k: int| 0 <= k < p.len() implies strip_cr(#[trigger] p[k]) == p[k] by {
        if p[k].len() > 0 {
            assert(p[k][p[k].len() - 1] != '\r');
        }
    }
    assert(p.map_values(|l: Seq<char>| strip_cr(l)) =~= p);
}

/// A trimmed text followed by a line feed trims back to the text.
proof fn lemma_trim_with_newline(x: Seq<char>)
    requires
        trim(x) == x,
    ensures
        trim(x + "\n"@) == x,
{
    reveal_strlit("\n");
    crate::text::lemma_trim_edges(x);
    let y = x + "\n"@;
    assert(is_ws('\n'));
    if x.len() == 0 {
        assert(y == seq!['\n']);
        assert(trim_start(y) == trim_start(y.drop_first()));
        assert(y.drop_first().len() == 0);
    } else {
        assert(y[0] == x[0]);
        assert(trim_start(y) == y);
        assert(y.drop_last() == x);
        assert(trim_end(y) == trim_end(x));
        assert(trim_end(x) == x);
    }
}

/// Taking the sandbox off a profile that it was put on gives back the
/// profile's text, for a profile that ends in one line feed after trimmed
/// text, has no carriage return, and has no line that mentions the sandbox or
/// is the marker comment (and a sandbox directory that is not empty and has no
/// line feed).
pub proof fn law_remove_undoes_inject(c: Seq<char>, sandbox: Seq<char>)
    requires
        sandbox.len() > 0,
        forall|j: int| 0 <= j < sandbox.len() ==> #[trigger] sandbox[j] != '\n',
        c == trim(c) + "\n"@,
        forall|i: int| 0 <= i < c.len() ==> c[i] != '\r',
        forall|k: int| 0 <= k < lines(c).len() ==> keeps_line(#[trigger] lines(c)[k], sandbox),
    ensures
        cleaned_profile(
            match injected_profile(Some(c), sandbox) {
                Some(n) => n,
                None => c,
            },
            sandbox,
        ) == c,
{
    reveal_strlit("\n");
    reveal_strlit("# DevIgnite sandbox path");
    reveal_strlit("export PATH=\"");
    reveal_strlit(":$PATH\"");
    let x = trim(c);
    assert(forall|i: int| 0 <= i < x.len() ==> x[i] == c[i]);
    assert(forall|i: int| 0 <= i < x.len() ==> x[i] != '\r') by {
        assert forall|i: int| 0 <= i < x.len() implies x[i] != '\r' by {
            assert(x[i] == c[i]);
        }
    }
    lemma_no_cr_lines(x);
    lemma_split_len(x, '\n');
    let sx = split_char(x, '\n');
    // The lines of the profile are the pieces of its trimmed text.
    assert(c == x + seq!['\n']);
    assert(c.drop_last() == x);
    assert(split_char(c, '\n') == sx.push(Seq::<char>::empty()));
    assert(sx.push(Seq::<char>::empty()).drop_last() == sx);
    assert(lines(c) =~= sx);
    lemma_kept_all(sx, sandbox);
    lemma_join_split(x, '\n');
    lemma_trim_idempotent(c);
    let m = marker_line();
    let e = export_line(sandbox);
    if contains(c, sandbox) {
        assert(cleaned_profile(c, sandbox) == trim(join_spec(sx, "\n"@)) + "\n"@);
        assert(join_spec(sx, seq!['\n']) == x);
        assert("\n"@ == seq!['\n']);
        assert(cleaned_profile(c, sandbox) == trim(x) + "\n"@);
        assert(injected_profile(Some(c), sandbox) is None);
    } else {
        assert("\n"@ == seq!['\n']);
        assert(ends_with(c, "\n"@)) by {
            assert(c.subrange(c.len() - 1, c.len() as int) == seq!['\n']);
        }
        let n = c + "\n"@ + m + "\n"@ + e + "\n"@;
        assert(injected_profile(Some(c), sandbox) == Some(n));
        assert(forall|j: int| 0 <= j < m.len() ==> #[trigger] m[j] != '\n');
        assert forall|j: int| 0 <= j < e.len() implies #[trigger] e[j] != '\n' by {
            if j >= 13 && j < 13 + sandbox.len() {
                assert(e[j] == sandbox[j - 13]);
            }
        }
        // The pieces of the new text.
        let e0 = Seq::<char>::empty();
        assert(c == x + seq!['\n'] + e0);
        lemma_split_push_piece(x, e0, '\n');
        let t1 = c;
        assert(t1 + "\n"@ + m == t1 + seq!['\n'] + m);
        lemma_split_push_piece(t1, m, '\n');
        let t2 = t1 + "\n"@ + m;
        assert(t2 + "\n"@ + e == t2 + seq!['\n'] + e);
        lemma_split_push_piece(t2, e, '\n');
        let t3 = t2 + "\n"@ + e;
        assert(n == t3 + seq!['\n'] + e0);
        lemma_split_push_piece(t3, e0, '\n');
        let pieces = sx.push(e0).push(m).push(e).push(e0);
        assert(split_char(n, '\n') == pieces);
        assert(pieces.drop_last() == sx.push(e0).push(m).push(e));
        assert(strip_cr(e) == e) by {
            assert(e.last() == '"');
        }
        assert(strip_cr(m) == m);
        assert(strip_cr(e0) == e0);
        assert(lines(n) =~= sx.push(e0).push(m).push(e));
        // The marker comment and the export line go; the blank line stays.
        lemma_contains_self(sandbox);
        lemma_contains_suffix("export PATH=\""@, sandbox, sandbox);
        lemma_contains_prefix("export PATH=\""@ + sandbox, ":$PATH\""@, sandbox);
        assert(contains(e, sandbox));
        assert(!keeps_line(e, sandbox));
        assert(trim(m) == m) by {
            assert(trim_start(m) == m);
            assert(trim_end(m) == m);
        }
        assert(!keeps_line(m, sandbox));
        assert(!contains(e0, sandbox)) by {
            assert forall|i: int| !#[trigger] occurs_at(e0, sandbox, i) by {}
        }
        assert(trim(e0) == e0) by {
            assert(trim_start(e0) == e0);
        }
        assert(keeps_line(e0, sandbox));
        let ls = sx.push(e0).push(m).push(e);
        assert(ls.drop_last() == sx.push(e0).push(m));
        assert(sx.push(e0).push(m).drop_last() == sx.push(e0));
        assert(sx.push(e0).drop_last() == sx);
        assert(kept_lines(sx.push(e0), sandbox) == kept_lines(sx, sandbox).push(e0));
        assert(kept_lines(sx.push(e0).push(m), sandbox) == kept_lines(sx.push(e0), sandbox));
        assert(kept_lines(ls, sandbox) == kept_lines(sx.push(e0).push(m), sandbox));
        assert(kept_lines(ls, sandbox) == sx.push(e0));
        assert(join_spec(sx.push(e0), "\n"@) == join_spec(sx, "\n"@) + "\n"@ + e0);
        assert(join_spec(sx.push(e0), "\n"@) == x + "\n"@);
        lemma_trim_with_newline(x);
        assert(cleaned_profile(n, sandbox) == trim(x + "\n"@) + "\n"@);
        assert(cleaned_profile(n, sandbox) == c);
    }
}

/// The profiles after an injection plan is carried out: a profile that the
/// plan rewrites gets its new text, and every other keeps its own.
pub open spec fn after_injection(contents: Option<Seq<char>>, sandbox: Seq<char>) -> Option<
    Seq<char>,
> {
    match injected_profile(contents, sandbox) {
        Some(n) => Some(n),
        None => contents,
    }
}

proof fn lemma_no_writes(writes: Seq<ProfileWrite>, ps: Seq<ShellProfile>, sandbox: Seq<char>)
    requires
        writes_in_order(writes, ps, sandbox),
        forall|i: int|
            0 <= i < ps.len() ==> injected_profile(opt_chars(#[trigger] ps[i].contents), sandbox)
                is None,
    ensures
        writes.len() == 0,
    decreases ps.len(),
{
    if ps.len() > 0 {
        assert(injected_profile(opt_chars(ps[ps.len() - 1].contents), sandbox) is None);
        lemma_no_writes(writes, ps.drop_last(), sandbox);
    }
}

/// Injecting into the profiles a second time, after the first injection's
/// writes were carried out, writes nothing: every profile already mentions
/// the sandbox.
pub proof fn law_injecting_twice_writes_nothing(
    first: Seq<ShellProfile>,
    second: Seq<ShellProfile>,
    writes: Seq<ProfileWrite>,
    sandbox: Seq<char>,
)
    requires
        second.len() == first.len(),
        forall|i: int|
            0 <= i < first.len() ==> opt_chars(#[trigger] second[i].contents) == after_injection(
                opt_chars(first[i].contents),
                sandbox,
            ),
        writes_in_order(writes, second, sandbox),
    ensures
        writes.len() == 0,
{
    assert forall|i: int| 0 <= i < second.len() implies injected_profile(
        opt_chars(#[trigger] second[i].contents),
        sandbox,
    ) is None by {
        let c = opt_chars(first[i].contents);
        law_injected_profile_mentions_sandbox(c, sandbox);
        assert(opt_chars(second[i].contents) == after_injection(c, sandbox));
    }
    lemma_no_writes(writes, second, sandbox);
}

/// Injection only appends: a profile it rewrites starts with its previous
/// text.
pub proof fn law_injection_only_appends(c: Seq<char>, sandbox: Seq<char>)
    ensures
        injected_profile(Some(c), sandbox) matches Some(n) ==> n.take(c.len() as int) == c,
{
    if !contains(c, sandbox) {
        let base = if ends_with(c, "\n"@) {
            c
        } else {
            c + "\n"@
        };
        let n = base + "\n"@ + marker_line() + "\n"@ + export_line(sandbox) + "\n"@;
        assert(n.take(c.len() as int) == c);
    }
}

/// After the sandbox is added to a Windows `Path` value, the value lists it.
pub proof fn law_injected_path_lists_sandbox(current: Seq<char>, sandbox: Seq<char>)
    requires
        is_list_entry(sandbox),
    ensures
        match injected_path_value(current, sandbox) {
            Some(n) => path_list_contains(n, sandbox),
            None => path_list_contains(current, sandbox),
        },
{
    if !path_list_contains(current, sandbox) {
        let n = if current.len() == 0 {
            sandbox
        } else {
            current + seq![';'] + sandbox
        };
        let y = if current.len() == 0 {
            Seq::<char>::empty()
        } else {
            current + seq![';']
        };
        assert(n == y + sandbox);
        lemma_split_append_free(y, sandbox, ';');
        let sy = split_char(y, ';');
        if current.len() > 0 {
            assert(y.drop_last() == current);
            assert(sy == split_char(current, ';').push(Seq::<char>::empty()));
        }
        assert(sy.last() == Seq::<char>::empty());
        assert(sy.last() + sandbox == sandbox);
        let k = sy.len() - 1;
        assert(split_char(n, ';')[k] == sandbox);
        assert(eq_ignore_ascii_case(trim(sandbox), sandbox));
        assert(eq_ignore_ascii_case(trim(split_char(n, ';')[k]), sandbox));
    }
}

/// After the sandbox is removed from a Windows `Path` value, the value no
/// longer lists it.
pub proof fn law_cleaned_path_omits_sandbox(current: Seq<char>, sandbox: Seq<char>)
    requires
        is_list_entry(sandbox),
    ensures
        !path_list_contains(cleaned_path_value(current, sandbox), sandbox),
{
    let es = trimmed_entries(current);
    let os = other_entries(es, sandbox);
    lemma_other_entries_props(es, sandbox);
    crate::text::lemma_split_pieces_free(current, ';');
    let r = cleaned_path_value(current, sandbox);
    if os.len() == 0 {
        assert(r == Seq::<char>::empty());
        assert(split_char(r, ';') == seq![Seq::<char>::empty()]);
        if path_list_contains(r, sandbox) {
            let k = choose|k: int|
                0 <= k < split_char(r, ';').len() && eq_ignore_ascii_case(
                    trim(#[trigger] split_char(r, ';')[k]),
                    sandbox,
                );
            assert(trim(Seq::<char>::empty()) == Seq::<char>::empty());
        }
    } else {
        assert forall|k: int, j: int| 0 <= k < os.len() && 0 <= j < os[k].len() implies #[trigger] os[k][j]
            != ';' by {
            let m = choose|m: int| 0 <= m < es.len() && os[k] == es[m];
            let piece = split_char(current, ';')[m];
            lemma_trim_shape_chars(piece);
            let t = trim(piece);
            let a = choose|a: int|
                0 <= a <= piece.len() - t.len() && t == #[trigger] piece.subrange(a, a + t.len());
            assert(t[j] == piece[a + j]);
        }
        lemma_split_join(os, ';');
        if path_list_contains(r, sandbox) {
            let k = choose|k: int|
                0 <= k < split_char(r, ';').len() && eq_ignore_ascii_case(
                    trim(#[trigger] split_char(r, ';')[k]),
                    sandbox,
                );
            let m = choose|m: int| 0 <= m < es.len() && os[k] == es[m];
            lemma_trim_idempotent(split_char(current, ';')[m]);
            assert(trim(os[k]) == os[k]);
            assert(!eq_ignore_ascii_case(os[k], sandbox));
        }
    }
}

proof fn lemma_trim_shape_chars(s: Seq<char>)
    ensures
        exists|a: int|
            0 <= a <= s.len() - trim(s).len() && trim(s) == #[trigger] s.subrange(
                a,
                a + trim(s).len(),
            ),
{
    let t = trim_start(s);
    lemma_trim_start_suffix(s);
    lemma_trim_end_prefix(t);
    let a = s.len() - t.len();
    assert(trim(s) == s.subrange(a, a + trim(s).len()));
}

// ---------------------------------------------------------------------------
// Executable functions
// ---------------------------------------------------------------------------

/// Whether a `;`-separated list names the entry.
pub fn path_list_contains_exec(list: &str, entry: &str) -> (r: bool)
    ensures
        r == path_list_contains(list@, entry@),
{
    let v = chars_of(list);
    let e = chars_of(entry);
    let pieces = split_chars(&v, ';');
    let ghost ps = split_char(list@, ';');
    for k in 0..pieces.len()
        invariant
            pieces@.map_values(|p: Vec<char>| p@) == ps,
            ps == split_char(list@, ';'),
            e@ == entry@,
            forall|m: int| 0 <= m < k ==> !eq_ignore_ascii_case(trim(#[trigger] ps[m]), entry@),
    {
        let t = trim_chars(&pieces[k]);
        assert(ps[k as int] == pieces@[k as int]@);
        if eq_ignore_ascii_case_chars(&t, &e) {
            return true;
        }
    }
    assert(ps.len() == pieces.len());
    false
}

/// The entries of a `;`-separated list, each trimmed, in order.
pub fn path_entries(list: &str) -> (r: Vec<String>)
    ensures
        r@.map_values(|s: String| s@) == trimmed_entries(list@),
{
    let v = chars_of(list);
    let pieces = split_chars(&v, ';');
    let trimmed = trim_all(&pieces);
    let ghost es = trimmed_entries(list@);
    assert(trimmed@.map_values(|p: Vec<char>| p@) == es);
    let mut r: Vec<String> = Vec::new();
    for k in 0..trimmed.len()
        invariant
            trimmed@.map_values(|p: Vec<char>| p@) == es,
            r@.map_values(|s: String| s@) == es.take(k as int),
    {
        let ghost before = r@;
        r.push(string_of(&trimmed[k]));
        assert(es.take(k + 1) == es.take(k as int).push(es[k as int]));
        assert(r@.map_values(|s: String| s@) =~= before.map_values(|s: String| s@).push(
            trimmed@[k as int]@,
        ));
    }
    assert(es.take(trimmed.len() as int) == es);
    r
}

fn trim_all(pieces: &Vec<Vec<char>>) -> (r: Vec<Vec<char>>)
    ensures
        r@.map_values(|p: Vec<char>| p@) == pieces@.map_values(|p: Vec<char>| p@).map_values(
            |p: Seq<char>| trim(p),
        ),
{
    let mut r: Vec<Vec<char>> = Vec::new();
    for k in 0..pieces.len()
        invariant
            r@.map_values(|p: Vec<char>| p@) =~= pieces@.take(k as int).map_values(
                |p: Vec<char>| p@,
            ).map_values(|p: Seq<char>| trim(p)),
    {
        let ghost before = r@;
        r.push(trim_chars(&pieces[k]));
        assert(pieces@.take(k + 1) == pieces@.take(k as int).push(pieces@[k as int]));
        assert(r@.map_values(|p: Vec<char>| p@) =~= before.map_values(|p: Vec<char>| p@).push(
            trim(pieces@[k as int]@),
        ));
        assert(pieces@.take(k + 1).map_values(|p: Vec<char>| p@).map_values(
            |p: Seq<char>| trim(p),
        ) =~= pieces@.take(k as int).map_values(|p: Vec<char>| p@).map_values(
            |p: Seq<char>| trim(p),
        ).push(trim(pieces@[k as int]@)));
    }
    assert(pieces@.take(pieces.len() as int) == pieces@);
    r
}

impl PathManager {
    /// The manager for a home directory: the sandbox's `bin` directory is
    /// `<home>/.devignite/bin`, joined the Windows way when `windows` holds.
    pub fn new(home: &str, windows: bool) -> (r: Self)
        ensures
            r.sandbox_bin_path@ == join_path(join_path(home@, ".devignite"@, windows), "bin"@, windows),
    {
        let root = join(home, ".devignite", windows);
        PathManager { sandbox_bin_path: join(root.as_str(), "bin", windows) }
    }

    /// The sandbox's `bin` directory.
    pub fn sandbox_bin_path(&self) -> (r: &String)
        ensures
            r@ == self.sandbox_bin_path@,
    {
        &self.sandbox_bin_path
    }

    /// Whether the PATH value names the sandbox's `bin` directory.
    pub fn is_in_user_path(&self, path_var: &str) -> (r: bool)
        ensures
            r == path_list_contains(path_var@, self.sandbox_bin_path@),
    {
        path_list_contains_exec(path_var, self.sandbox_bin_path.as_str())
    }

    /// The new contents of one profile, or `None` when it already mentions
    /// the sandbox.
    pub fn profile_injection(&self, contents: Option<&str>) -> (r: Option<String>)
        ensures
            match r {
                Some(n) => injected_profile(
                    match contents {
                        Some(c) => Some(c@),
                        None => None,
                    },
                    self.sandbox_bin_path@,
                ) == Some(n@),
                None => injected_profile(
                    match contents {
                        Some(c) => Some(c@),
                        None => None,
                    },
                    self.sandbox_bin_path@,
                ) is None,
            },
    {
        let sandbox = self.sandbox_bin_path.as_str();
        let a = concat("export PATH=\"", sandbox);
        let export = concat(a.as_str(), ":$PATH\"");
        match contents {
            None => Some(concat(export.as_str(), "\n")),
            Some(c) => {
                if contains_str(c, sandbox) {
                    None
                } else {
                    let mut m = owned(c);
                    if !ends_with_str(c, "\n") {
                        m.append("\n");
                    }
                    m.append("\n");
                    m.append("# DevIgnite sandbox path");
                    m.append("\n");
                    m.append(export.as_str());
                    m.append("\n");
                    Some(m)
                }
            },
        }
    }

    /// Puts the sandbox on the PATH in each shell profile: the writes to
    /// make, in order, and whether any profile changed.
    pub fn inject_sandbox_into_path(&self, profiles: &Vec<ShellProfile>) -> (r: InjectPlan)
        ensures
            r.injected == (r.writes.len() > 0),
            writes_in_order(r.writes@, profiles@, self.sandbox_bin_path@),
    {
        let mut writes: Vec<ProfileWrite> = Vec::new();
        assert(profiles@.take(0).len() == 0);
        for i in 0..profiles.len()
            invariant
                writes_in_order(writes@, profiles@.take(i as int), self.sandbox_bin_path@),
        {
            let p = &profiles[i];
            let update = match &p.contents {
                Some(c) => self.profile_injection(Some(c.as_str())),
                None => self.profile_injection(None),
            };
            assert(profiles@.take(i + 1).drop_last() == profiles@.take(i as int));
            assert(profiles@.take(i + 1).last() == profiles@[i as int]);
            match update {
                Some(n) => {
                    let ghost before = writes@;
                    writes.push(ProfileWrite { path: p.path.clone(), contents: n });
                    assert(writes@.drop_last() == before);
                },
                None => {},
            }
        }
        assert(profiles@.take(profiles.len() as int) == profiles@);
        let injected = writes.len() > 0;
        InjectPlan { writes, injected }
    }

    /// The contents of one profile after the sandbox is taken off the PATH.
    pub fn profile_removal(&self, contents: &str) -> (r: String)
        ensures
            r@ == cleaned_profile(contents@, self.sandbox_bin_path@),
    {
        let v = chars_of(contents);
        let sandbox = chars_of(self.sandbox_bin_path.as_str());
        let marker = chars_of("# DevIgnite sandbox path");
        let ls = lines_chars(&v);
        let ghost all = lines(contents@);
        let mut kept: Vec<Vec<char>> = Vec::new();
        for k in 0..ls.len()
            invariant
                ls@.map_values(|l: Vec<char>| l@) == all,
                sandbox@ == self.sandbox_bin_path@,
                marker@ == marker_line(),
                kept@.map_values(|l: Vec<char>| l@) == kept_lines(all.take(k as int), sandbox@),
        {
            assert(all.take(k + 1).drop_last() == all.take(k as int));
            assert(all.take(k + 1).last() == ls@[k as int]@);
            let line = &ls[k];
            let mentions = contains_chars(line, &sandbox);
            let t = trim_chars(line);
            let same_marker = vec_eq(&t, &marker);
            if !mentions && !same_marker {
                let l = crate::text::slice_chars(line, 0, line.len());
                assert(line@.subrange(0, line.len() as int) == line@);
                let ghost before = kept@;
                kept.push(l);
                assert(kept@.map_values(|l: Vec<char>| l@) =~= before.map_values(|l: Vec<char>| l@).push(
                    line@,
                ));
            }
        }
        assert(all.take(ls.len() as int) == all);
        let nl = chars_of("\n");
        let joined = join_chars(&kept, &nl);
        let trimmed = trim_chars(&joined);
        let mut out = string_of(&trimmed);
        out.append("\n");
        out
    }

    /// The contents to write back into each existing profile so that the
    /// sandbox is off the PATH; profiles that do not exist are left alone.
    pub fn remove_sandbox_from_path(&self, profiles: &Vec<ShellProfile>) -> (r: Vec<ProfileWrite>)
        ensures
            removal_writes(r@, profiles@, self.sandbox_bin_path@),
    {
        let mut writes: Vec<ProfileWrite> = Vec::new();
        for i in 0..profiles.len()
            invariant
                removal_writes(writes@, profiles@.take(i as int), self.sandbox_bin_path@),
        {
            assert(profiles@.take(i + 1).drop_last() == profiles@.take(i as int));
            assert(profiles@.take(i + 1).last() == profiles@[i as int]);
            let p = &profiles[i];
            match &p.contents {
                Some(c) => {
                    let n = self.profile_removal(c.as_str());
                    let ghost before = writes@;
                    writes.push(ProfileWrite { path: p.path.clone(), contents: n });
                    assert(writes@.drop_last() == before);
                },
                None => {},
            }
        }
        assert(profiles@.take(profiles.len() as int) == profiles@);
        writes
    }

    /// The Windows `Path` value with the sandbox added, or `None` when it is
    /// already listed.
    pub fn inject_into_path_value(&self, current: &str) -> (r: Option<String>)
        ensures
            match r {
                Some(n) => injected_path_value(current@, self.sandbox_bin_path@) == Some(n@),
                None => injected_path_value(current@, self.sandbox_bin_path@) is None,
            },
    {
        let sandbox = self.sandbox_bin_path.as_str();
        if path_list_contains_exec(current, sandbox) {
            None
        } else if current.is_empty() {
            Some(owned(sandbox))
        } else {
            let a = concat(current, ";");
            proof {
                reveal_strlit(";");
            }
            assert(";"@ == seq![';']);
            Some(concat(a.as_str(), sandbox))
        }
    }

    /// The Windows `Path` value with the sandbox removed.
    pub fn remove_from_path_value(&self, current: &str) -> (r: String)
        ensures
            r@ == cleaned_path_value(current@, self.sandbox_bin_path@),
    {
        let v = chars_of(current);
        let e = chars_of(self.sandbox_bin_path.as_str());
        let pieces = split_chars(&v, ';');
        let trimmed = trim_all(&pieces);
        let ghost es = trimmed_entries(current@);
        assert(trimmed@.map_values(|p: Vec<char>| p@) == es);
        let mut kept: Vec<Vec<char>> = Vec::new();
        for k in 0..trimmed.len()
            invariant
                trimmed@.map_values(|p: Vec<char>| p@) == es,
                e@ == self.sandbox_bin_path@,
                kept@.map_values(|p: Vec<char>| p@) == other_entries(es.take(k as int), e@),
        {
            assert(es.take(k + 1).drop_last() == es.take(k as int));
            assert(es.take(k + 1).last() == trimmed@[k as int]@);
            if !eq_ignore_ascii_case_chars(&trimmed[k], &e) {
                let piece = crate::text::slice_chars(&trimmed[k], 0, trimmed[k].len());
                assert(trimmed[k as int]@.subrange(0, trimmed[k as int]@.len() as int)
                    == trimmed[k as int]@);
                let ghost before = kept@;
                kept.push(piece);
                assert(kept@.map_values(|p: Vec<char>| p@) =~= before.map_values(|p: Vec<char>| p@).push(
                    trimmed[k as int]@,
                ));
            }
        }
        assert(es.take(trimmed.len() as int) == es);
        let sep = chars_of(";");
        proof {
            reveal_strlit(";");
        }
        assert(sep@ == seq![';']);
        let joined = join_chars(&kept, &sep);
        string_of(&joined)
    }

    /// The reachability of the sandbox: whether the PATH value names its
    /// `bin` directory, whether that directory exists, and how many of its
    /// entries are links or files.
    pub fn verify_path_broadcast(
        &self,
        path_var: &str,
        bin_dir_exists: bool,
        link_or_file: &Vec<bool>,
    ) -> (r: PathBroadcastStatus)
        ensures
            r.in_user_path == path_list_contains(path_var@, self.sandbox_bin_path@),
            r.bin_dir_exists == bin_dir_exists,
            r.symlink_count == if bin_dir_exists {
                count_true(link_or_file@)
            } else {
                0
            },
            r.sandbox_path@ == self.sandbox_bin_path@,
    {
        let in_user_path = path_list_contains_exec(path_var, self.sandbox_bin_path.as_str());
        let mut count: usize = 0;
        if bin_dir_exists {
            for k in 0..link_or_file.len()
                invariant
                    count == count_true(link_or_file@.take(k as int)),
                    count <= k,
            {
                assert(link_or_file@.take(k + 1).drop_last() == link_or_file@.take(k as int));
                if link_or_file[k] {
                    count += 1;
                }
            }
            assert(link_or_file@.take(link_or_file.len() as int) == link_or_file@);
        }
        PathBroadcastStatus {
            in_user_path,
            bin_dir_exists,
            symlink_count: count,
            sandbox_path: self.sandbox_bin_path.clone(),
        }
    }
}

/// The (Unix) profiles that the sandbox path goes into: the one matching the shell
/// named by `SHELL`, or both `.bashrc` and `.zshrc` when it is unset.
pub fn get_shell_profiles(home: &str, shell: Option<&str>) -> (r: Vec<String>)
    ensures
        r@.map_values(|s: String| s@) == shell_profile_paths(
            home@,
            match shell {
                Some(s) => Some(s@),
                None => None,
            },
        ),
{
    let r = match shell {
        Some(sh) => {
            if contains_str(sh, "zsh") {
                vec![join(home, ".zshrc", false)]
            } else if contains_str(sh, "fish") {
                let c = join(home, ".config", false);
                let f = join(c.as_str(), "fish", false);
                vec![join(f.as_str(), "config.fish", false)]
            } else {
                vec![join(home, ".bashrc", false)]
            }
        },
        None => vec![join(home, ".bashrc", false), join(home, ".zshrc", false)],
    };
    assert(r@.map_values(|s: String| s@) =~= shell_profile_paths(
        home@,
        match shell {
            Some(s) => Some(s@),
            None => None,
        },
    ));
    r
}

/// A profile's contents as plain text.
pub open spec fn opt_chars(o: Option<String>) -> Option<Seq<char>> {
    match o {
        Some(s) => Some(s@),
        None => None,
    }
}

/// The writes are exactly the rewritten profiles, in profile order.
pub open spec fn writes_in_order(
    writes: Seq<ProfileWrite>,
    profiles: Seq<ShellProfile>,
    sandbox: Seq<char>,
) -> bool
    decreases profiles.len(),
{
    if profiles.len() == 0 {
        writes.len() == 0
    } else {
        match injected_profile(opt_chars(profiles.last().contents), sandbox) {
            Some(n) => writes.len() > 0 && writes.last().path@ == profiles.last().path@
                && writes.last().contents@ == n && writes_in_order(
                writes.drop_last(),
                profiles.drop_last(),
                sandbox,
            ),
            None => writes_in_order(writes, profiles.drop_last(), sandbox),
        }
    }
}

/// The writes are the cleaned contents of the existing profiles, in order.
pub open spec fn removal_writes(
    writes: Seq<ProfileWrite>,
    profiles: Seq<ShellProfile>,
    sandbox: Seq<char>,
) -> bool
    decreases profiles.len(),
{
    if profiles.len() == 0 {
        writes.len() == 0
    } else {
        match profiles.last().contents {
            Some(c) => writes.len() > 0 && writes.last().path@ == profiles.last().path@
                && writes.last().contents@ == cleaned_profile(c@, sandbox) && removal_writes(
                writes.drop_last(),
                profiles.drop_last(),
                sandbox,
            ),
            None => removal_writes(writes, profiles.drop_last(), sandbox),
        }
    }
}

fn vec_eq(a: &Vec<char>, b: &Vec<char>) -> (r: bool)
    ensures
        r == (a@ == b@),
{
    if a.len() != b.len() {
        return false;
    }
    for i in 0..a.len()
        invariant
            a.len() == b.len(),
            forall|k: int| 0 <= k < i ==> a@[k] == b@[k],
    {
        if a[i] != b[i] {
            return false;
        }
    }
    assert(a@ =~= b@);
    true
}

} // verus!
