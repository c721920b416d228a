//! Character-level text operations used throughout the crate, each with a
//! mathematical model over `Seq<char>` that mirrors the behaviour of the
//! corresponding `str` method.
use vstd::prelude::*;

verus! {

broadcast use vstd::string::group_string_axioms;

// ---------------------------------------------------------------------------
// Models
// ---------------------------------------------------------------------------

/// Unicode `White_Space`, the property behind `char::is_whitespace`.
pub open spec fn is_ws(c: char) -> bool {
    let u = c as u32;
    ||| (0x09 <= u && u <= 0x0d)
    ||| u == 0x20
    ||| u == 0x85
    ||| u == 0xa0
    ||| u == 0x1680
    ||| (0x2000 <= u && u <= 0x200a)
    ||| u == 0x2028
    ||| u == 0x2029
    ||| u == 0x202f
    ||| u == 0x205f
    ||| u == 0x3000
}

/// The text with its leading whitespace removed.
pub open spec fn trim_start(s: Seq<char>) -> Seq<char>
    decreases s.len(),
{
    if s.len() > 0 && is_ws(s[0]) {
        trim_start(s.drop_first())
    } else {
        s
    }
}

/// The text with its trailing whitespace removed.
pub open spec fn trim_end(s: Seq<char>) -> Seq<char>
    decreases s.len(),
{
    if s.len() > 0 && is_ws(s.last()) {
        trim_end(s.drop_last())
    } else {
        s
    }
}

/// `str::trim`.
pub open spec fn trim(s: Seq<char>) -> Seq<char> {
    trim_end(trim_start(s))
}

pub open spec fn is_ascii_upper(c: char) -> bool {
    0x41 <= (c as u32) && (c as u32) <= 0x5a
}

/// Every character is ASCII.
pub open spec fn is_ascii_text(s: Seq<char>) -> bool {
    forall|i: int| 0 <= i < s.len() ==> (#[trigger] s[i] as u32) < 0x80
}

/// An ASCII upper-case letter made lower case; any other character as it is.
pub open spec fn ascii_lower_char(c: char) -> char {
    if is_ascii_upper(c) {
        ((c as u32) + 32) as char
    } else {
        c
    }
}

/// The text with its ASCII upper-case letters made lower case.
pub open spec fn ascii_lowercase(s: Seq<char>) -> Seq<char> {
    s.map_values(|c: char| ascii_lower_char(c))
}

/// ASCII lower-casing keeps a text ASCII and changes nothing the second time.
pub proof fn lemma_ascii_lowercase_idempotent(s: Seq<char>)
    requires
        is_ascii_text(s),
    ensures
        is_ascii_text(ascii_lowercase(s)),
        ascii_lowercase(ascii_lowercase(s)) == ascii_lowercase(s),
{
    let l = ascii_lowercase(s);
    assert forall|i: int| 0 <= i < l.len() implies (#[trigger] l[i] as u32) < 0x80 && !is_ascii_upper(l[i]) by {
        assert((s[i] as u32) < 0x80);
        if is_ascii_upper(s[i]) {
            assert(((s[i] as u32) + 32) as char as u32 == (s[i] as u32) + 32);
        }
    }
    assert(ascii_lowercase(l) =~= l);
}

/// Two characters are equal after ASCII lower-casing.
pub open spec fn char_eq_ignore_ascii_case(a: char, b: char) -> bool {
    ||| (a as u32) == (b as u32)
    ||| (is_ascii_upper(a) && (a as u32) + 32 == (b as u32))
    ||| (is_ascii_upper(b) && (b as u32) + 32 == (a as u32))
}

/// `str::eq_ignore_ascii_case`.
pub open spec fn eq_ignore_ascii_case(a: Seq<char>, b: Seq<char>) -> bool {
    &&& a.len() == b.len()
    &&& forall|i: int| 0 <= i < a.len() ==> #[trigger] char_eq_ignore_ascii_case(a[i], b[i])
}

/// `str::split(c)`: the pieces between occurrences of `c`; always at least one.
pub open spec fn split_char(s: Seq<char>, c: char) -> Seq<Seq<char>>
    decreases s.len(),
{
    if s.len() == 0 {
        seq![Seq::<char>::empty()]
    } else {
        let r = split_char(s.drop_last(), c);
        if s.last() == c {
            r.push(Seq::<char>::empty())
        } else {
            r.update(r.len() - 1, r.last().push(s.last()))
        }
    }
}

/// The pieces joined with `sep` between neighbours (`[..].join(sep)`).
pub open spec fn join(pieces: Seq<Seq<char>>, sep: Seq<char>) -> Seq<char>
    decreases pieces.len(),
{
    if pieces.len() == 0 {
        Seq::<char>::empty()
    } else if pieces.len() == 1 {
        pieces[0]
    } else {
        join(pieces.drop_last(), sep) + sep + pieces.last()
    }
}

/// `pat` occurs in `s` at position `i`.
pub open spec fn occurs_at(s: Seq<char>, pat: Seq<char>, i: int) -> bool {
    0 <= i && i + pat.len() <= s.len() && s.subrange(i, i + pat.len()) == pat
}

/// `str::contains`.
pub open spec fn contains(s: Seq<char>, pat: Seq<char>) -> bool {
    exists|i: int| #[trigger] occurs_at(s, pat, i)
}

/// `str::ends_with`.
pub open spec fn ends_with(s: Seq<char>, suffix: Seq<char>) -> bool {
    suffix.len() <= s.len() && s.subrange(s.len() - suffix.len(), s.len() as int) == suffix
}

/// `str::starts_with`.
pub open spec fn starts_with(s: Seq<char>, prefix: Seq<char>) -> bool {
    prefix.len() <= s.len() && s.subrange(0, prefix.len() as int) == prefix
}

/// `str::replace(from, to)` for a non-empty `from`: every non-overlapping
/// occurrence, found from the left, is replaced.
pub open spec fn replace_all(s: Seq<char>, from: Seq<char>, to: Seq<char>) -> Seq<char>
    decreases s.len(),
{
    if from.len() == 0 || s.len() < from.len() {
        s
    } else if starts_with(s, from) {
        to + replace_all(s.skip(from.len() as int), from, to)
    } else {
        seq![s[0]] + replace_all(s.drop_first(), from, to)
    }
}

/// `str::trim_end_matches(pat)` for a non-empty `pat`: the suffix is removed
/// as many times as it occurs.
pub open spec fn trim_end_matches(s: Seq<char>, pat: Seq<char>) -> Seq<char>
    decreases s.len(),
{
    if pat.len() > 0 && ends_with(s, pat) {
        trim_end_matches(s.subrange(0, s.len() - pat.len()), pat)
    } else {
        s
    }
}

/// A line without the carriage return that preceded its line feed.
pub open spec fn strip_cr(line: Seq<char>) -> Seq<char> {
    if line.len() > 0 && line.last() == '\r' {
        line.drop_last()
    } else {
        line
    }
}

/// `str::lines`: the text split at `\n`, each terminated line without a
/// trailing `\r`, and no empty last line after a final line feed.
pub open spec fn lines(s: Seq<char>) -> Seq<Seq<char>> {
    let p = split_char(s, '\n');
    p.drop_last().map_values(|l: Seq<char>| strip_cr(l)) + (if p.last().len() > 0 {
        seq![p.last()]
    } else {
        Seq::<Seq<char>>::empty()
    })
}

/// The index of the last occurrence of `c`, or -1.
pub open spec fn last_index_of(s: Seq<char>, c: char) -> int
    decreases s.len(),
{
    if s.len() == 0 {
        -1
    } else if s.last() == c {
        s.len() - 1
    } else {
        last_index_of(s.drop_last(), c)
    }
}

/// `Path::file_stem` of a file name: the name up to its last `.`, unless the
/// only `.` is the first character.
pub open spec fn file_stem(name: Seq<char>) -> Seq<char> {
    let k = last_index_of(name, '.');
    if k <= 0 || name == seq!['.', '.'] {
        name
    } else {
        name.take(k)
    }
}

/// The leading run of non-whitespace characters (the first item of
/// `split_whitespace` on text that starts with a non-whitespace character).
pub open spec fn first_word(s: Seq<char>) -> Seq<char>
    decreases s.len(),
{
    if s.len() == 0 || is_ws(s[0]) {
        Seq::<char>::empty()
    } else {
        seq![s[0]] + first_word(s.drop_first())
    }
}

/// `char::is_ascii_hexdigit`.
pub open spec fn is_hex_digit(c: char) -> bool {
    let u = c as u32;
    (0x30 <= u && u <= 0x39) || (0x41 <= u && u <= 0x46) || (0x61 <= u && u <= 0x66)
}

// ---------------------------------------------------------------------------
// Lemmas
// ---------------------------------------------------------------------------

proof fn lemma_split_len(s: Seq<char>, c: char)
    ensures
        split_char(s, c).len() >= 1,
    decreases s.len(),
{
    if s.len() > 0 {
        lemma_split_len(s.drop_last(), c);
    }
}

/// The pieces of a split, joined with the separator, give back the text.
pub proof fn lemma_join_split(s: Seq<char>, c: char)
    ensures
        join(split_char(s, c), seq![c]) == s,
    decreases s.len(),
{
    if s.len() > 0 {
        let t = s.drop_last();
        lemma_join_split(t, c);
        lemma_split_len(t, c);
        let r = split_char(t, c);
        if s.last() == c {
            assert(r.push(Seq::<char>::empty()).drop_last() == r);
            assert(join(r, seq![c]) + seq![c] + Seq::<char>::empty() == s);
        } else {
            let r2 = r.update(r.len() - 1, r.last().push(s.last()));
            if r.len() == 1 {
                assert(join(r2, seq![c]) == r2[0]);
                assert(r2[0] == s);
            } else {
                assert(r2.drop_last() == r.drop_last());
                assert(join(r, seq![c]) == join(r.drop_last(), seq![c]) + seq![c] + r.last());
                assert(join(r2, seq![c]) == join(r.drop_last(), seq![c]) + seq![c] + r.last().push(
                    s.last(),
                ));
                assert(s == t.push(s.last()));
            }
        }
    }
}

/// No piece of a split contains the separator.
pub proof fn lemma_split_pieces_free(s: Seq<char>, c: char)
    ensures
        forall|k: int, j: int|
            0 <= k < split_char(s, c).len() && 0 <= j < split_char(s, c)[k].len()
                ==> #[trigger] split_char(s, c)[k][j] != c,
    decreases s.len(),
{
    if s.len() > 0 {
        lemma_split_pieces_free(s.drop_last(), c);
        lemma_split_len(s.drop_last(), c);
    }
}

proof fn lemma_trim_start_ws_prefix(s: Seq<char>, i: int)
    requires
        0 <= i <= s.len(),
        forall|j: int| 0 <= j < i ==> is_ws(#[trigger] s[j]),
    ensures
        trim_start(s) == trim_start(s.subrange(i, s.len() as int)),
    decreases i,
{
    if i > 0 {
        assert(s.drop_first().subrange(i - 1, s.drop_first().len() as int) == s.subrange(
            i,
            s.len() as int,
        ));
        lemma_trim_start_ws_prefix(s.drop_first(), i - 1);
    } else {
        assert(s.subrange(0, s.len() as int) == s);
    }
}

proof fn lemma_trim_end_ws_suffix(s: Seq<char>, j: int)
    requires
        0 <= j <= s.len(),
        forall|k: int| j <= k < s.len() ==> is_ws(#[trigger] s[k]),
    ensures
        trim_end(s) == trim_end(s.subrange(0, j)),
    decreases s.len() - j,
{
    if j < s.len() {
        assert(s.drop_last().subrange(0, j) == s.subrange(0, j));
        lemma_trim_end_ws_suffix(s.drop_last(), j);
    } else {
        assert(s.subrange(0, j) == s);
    }
}

/// The result of `trim` neither starts nor ends with whitespace.
pub proof fn lemma_trim_edges(s: Seq<char>)
    ensures
        trim(s).len() > 0 ==> !is_ws(trim(s)[0]) && !is_ws(trim(s).last()),
        trim(s).len() <= s.len(),
{
    lemma_trim_start_shape(s);
    lemma_trim_end_shape(trim_start(s));
}

proof fn lemma_trim_start_shape(s: Seq<char>)
    ensures
        trim_start(s).len() > 0 ==> !is_ws(trim_start(s)[0]),
        trim_start(s).len() <= s.len(),
        exists|i: int| 0 <= i <= s.len() && trim_start(s) == #[trigger] s.subrange(i, s.len() as int),
    decreases s.len(),
{
    if s.len() > 0 && is_ws(s[0]) {
        lemma_trim_start_shape(s.drop_first());
        let i = choose|i: int|
            0 <= i <= s.drop_first().len() && trim_start(s.drop_first()) == #[trigger] s.drop_first().subrange(
                i,
                s.drop_first().len() as int,
            );
        assert(s.drop_first().subrange(i, s.drop_first().len() as int) == s.subrange(
            i + 1,
            s.len() as int,
        ));
    } else {
        assert(s.subrange(0, s.len() as int) == s);
    }
}

proof fn lemma_trim_end_shape(s: Seq<char>)
    ensures
        trim_end(s).len() > 0 ==> !is_ws(trim_end(s).last()),
        trim_end(s).len() <= s.len(),
        trim_end(s).len() > 0 && s.len() > 0 ==> trim_end(s)[0] == s[0],
    decreases s.len(),
{
    if s.len() > 0 && is_ws(s.last()) {
        lemma_trim_end_shape(s.drop_last());
    }
}

// ---------------------------------------------------------------------------
// Executable operations
// ---------------------------------------------------------------------------

/// Appends one character to a string (`String::push`).
#[verifier::external_body]
pub(crate) fn push_char(s: &mut String, c: char)
    ensures
        final(s)@ == old(s)@.push(c),
{
    s.push(c);
}

/// An owned copy of a string slice.
pub fn owned(s: &str) -> (r: String)
    ensures
        r@ == s@,
{
    s.to_owned()
}

/// The concatenation of two strings.
pub fn concat(a: &str, b: &str) -> (r: String)
    ensures
        r@ == a@ + b@,
{
    let mut r = a.to_owned();
    r.append(b);
    r
}

/// The characters of a string slice, in order.
pub fn chars_of(s: &str) -> (v: Vec<char>)
    ensures
        v@ == s@,
{
    let mut v: Vec<char> = Vec::new();
    for c in it: s.chars()
        invariant
            v@ == it.seq().take(it.index() as int),
            it.seq() == s@,
    {
        v.push(c);
    }
    v
}

/// Builds a string from a sequence of characters.
pub fn string_of(v: &Vec<char>) -> (s: String)
    ensures
        s@ == v@,
{
    let mut s = String::new();
    for i in 0..v.len()
        invariant
            s@ == v@.take(i as int),
    {
        push_char(&mut s, v[i]);
        assert(v@.take(i + 1) == v@.take(i as int).push(v@[i as int]));
    }
    assert(v@.take(v.len() as int) == v@);
    s
}

/// The characters at positions `a..b`.
pub fn slice_chars(v: &Vec<char>, a: usize, b: usize) -> (r: Vec<char>)
    requires
        a <= b <= v.len(),
    ensures
        r@ == v@.subrange(a as int, b as int),
{
    let mut r: Vec<char> = Vec::new();
    let mut i = a;
    while i < b
        invariant
            a <= i <= b <= v.len(),
            r@ == v@.subrange(a as int, i as int),
        decreases b - i,
    {
        r.push(v[i]);
        assert(v@.subrange(a as int, i + 1) == v@.subrange(a as int, i as int).push(v@[i as int]));
        i += 1;
    }
    r
}

/// `char::is_whitespace`.
pub fn is_whitespace(c: char) -> (r: bool)
    ensures
        r == is_ws(c),
{
    let u = c as u32;
    (0x09 <= u && u <= 0x0d) || u == 0x20 || u == 0x85 || u == 0xa0 || u == 0x1680 || (0x2000 <= u
        && u <= 0x200a) || u == 0x2028 || u == 0x2029 || u == 0x202f || u == 0x205f || u == 0x3000
}

/// `str::trim` on a character vector.
pub fn trim_chars(v: &Vec<char>) -> (r: Vec<char>)
    ensures
        r@ == trim(v@),
{
    let n = v.len();
    let mut i: usize = 0;
    while i < n && is_whitespace(v[i])
        invariant
            0 <= i <= n == v.len(),
            forall|j: int| 0 <= j < i ==> is_ws(#[trigger] v@[j]),
        decreases n - i,
    {
        i += 1;
    }
    proof {
        lemma_trim_start_ws_prefix(v@, i as int);
    }
    let ghost t = v@.subrange(i as int, n as int);
    assert(trim_start(t) == t);
    let mut j: usize = n;
    while j > i && is_whitespace(v[j - 1])
        invariant
            i <= j <= n == v.len(),
            t == v@.subrange(i as int, n as int),
            forall|k: int| j <= k < n ==> is_ws(#[trigger] v@[k]),
        decreases j - i,
    {
        j -= 1;
    }
    proof {
        assert forall|k: int| j - i <= k < t.len() implies is_ws(#[trigger] t[k]) by {
            assert(t[k] == v@[k + i]);
        }
        lemma_trim_end_ws_suffix(t, j - i);
        assert(t.subrange(0, j - i) == v@.subrange(i as int, j as int));
    }
    slice_chars(v, i, j)
}

/// `str::trim`.
pub fn trim_str(s: &str) -> (r: String)
    ensures
        r@ == trim(s@),
{
    let v = chars_of(s);
    let t = trim_chars(&v);
    string_of(&t)
}

/// `str::eq_ignore_ascii_case` on character vectors.
pub fn eq_ignore_ascii_case_chars(a: &Vec<char>, b: &Vec<char>) -> (r: bool)
    ensures
        r == eq_ignore_ascii_case(a@, b@),
{
    if a.len() != b.len() {
        return false;
    }
    for i in 0..a.len()
        invariant
            a.len() == b.len(),
            forall|k: int| 0 <= k < i ==> #[trigger] char_eq_ignore_ascii_case(a@[k], b@[k]),
    {
        let x = a[i] as u32;
        let y = b[i] as u32;
        let same = x == y || (0x41 <= x && x <= 0x5a && x + 32 == y) || (0x41 <= y && y <= 0x5a
            && y + 32 == x);
        if !same {
            assert(!char_eq_ignore_ascii_case(a@[i as int], b@[i as int]));
            return false;
        }
        assert(char_eq_ignore_ascii_case(a@[i as int], b@[i as int]));
    }
    true
}

/// `str::split(c)` on a character vector.
pub fn split_chars(v: &Vec<char>, c: char) -> (r: Vec<Vec<char>>)
    ensures
        r@.map_values(|p: Vec<char>| p@) == split_char(v@, c),
        r.len() >= 1,
{
    let mut pieces: Vec<Vec<char>> = Vec::new();
    let mut cur: Vec<char> = Vec::new();
    for i in 0..v.len()
        invariant
            pieces@.map_values(|p: Vec<char>| p@).push(cur@) == split_char(v@.take(i as int), c),
    {
        let ghost before = v@.take(i as int);
        assert(v@.take(i + 1).drop_last() == before);
        proof {
            lemma_split_len(before, c);
        }
        if v[i] == c {
            let done = cur;
            pieces.push(done);
            cur = Vec::new();
            assert(pieces@.map_values(|p: Vec<char>| p@) == split_char(before, c));
        } else {
            cur.push(v[i]);
            assert(pieces@.map_values(|p: Vec<char>| p@).push(cur@) == split_char(before, c).update(
                split_char(before, c).len() - 1,
                split_char(before, c).last().push(v@[i as int]),
            ));
        }
    }
    assert(v@.take(v.len() as int) == v@);
    pieces.push(cur);
    pieces
}

/// `[..].join(sep)` on character vectors.
pub fn join_chars(pieces: &Vec<Vec<char>>, sep: &Vec<char>) -> (r: Vec<char>)
    ensures
        r@ == join(pieces@.map_values(|p: Vec<char>| p@), sep@),
{
    let ghost ps = pieces@.map_values(|p: Vec<char>| p@);
    let mut r: Vec<char> = Vec::new();
    for i in 0..pieces.len()
        invariant
            ps == pieces@.map_values(|p: Vec<char>| p@),
            r@ == join(ps.take(i as int), sep@),
    {
        assert(ps.take(i + 1).drop_last() == ps.take(i as int));
        if i > 0 {
            let mut k: usize = 0;
            while k < sep.len()
                invariant
                    0 <= k <= sep.len(),
                    r@ == join(ps.take(i as int), sep@) + sep@.take(k as int),
                decreases sep.len() - k,
            {
                r.push(sep[k]);
                assert(sep@.take(k + 1) == sep@.take(k as int).push(sep@[k as int]));
                k += 1;
            }
            assert(sep@.take(sep.len() as int) == sep@);
        } else {
            assert(r@ == Seq::<char>::empty());
        }
        let ghost mid = r@;
        let piece = &pieces[i];
        let mut k: usize = 0;
        while k < piece.len()
            invariant
                0 <= k <= piece.len(),
                r@ == mid + piece@.take(k as int),
            decreases piece.len() - k,
        {
            r.push(piece[k]);
            assert(piece@.take(k + 1) == piece@.take(k as int).push(piece@[k as int]));
            k += 1;
        }
        assert(piece@.take(piece.len() as int) == piece@);
        assert(ps.take(i + 1).last() == piece@);
        if i == 0 {
            assert(ps.take(1)[0] == piece@);
        }
    }
    assert(ps.take(pieces.len() as int) == ps);
    r
}

/// Whether `pat` occurs in `v` at position `i`.
fn occurs_at_exec(v: &Vec<char>, pat: &Vec<char>, i: usize) -> (r: bool)
    requires
        i + pat.len() <= v.len(),
    ensures
        r == occurs_at(v@, pat@, i as int),
{
    let mut k: usize = 0;
    while k < pat.len()
        invariant
            0 <= k <= pat.len(),
            i + pat.len() <= v.len(),
            forall|m: int| 0 <= m < k ==> v@[i + m] == pat@[m],
        decreases pat.len() - k,
    {
        if v[i + k] != pat[k] {
            assert(v@.subrange(i as int, i + pat.len())[k as int] != pat@[k as int]);
            return false;
        }
        k += 1;
    }
    assert(v@.subrange(i as int, i + pat.len()) == pat@);
    true
}

/// `str::contains` on character vectors.
pub fn contains_chars(v: &Vec<char>, pat: &Vec<char>) -> (r: bool)
    ensures
        r == contains(v@, pat@),
{
    if pat.len() > v.len() {
        assert forall|i: int| !#[trigger] occurs_at(v@, pat@, i) by {}
        return false;
    }
    let last = v.len() - pat.len();
    let mut i: usize = 0;
    while i <= last
        invariant_except_break
            last + pat.len() == v.len(),
            forall|j: int| 0 <= j < i ==> !#[trigger] occurs_at(v@, pat@, j),
        ensures
            forall|j: int| 0 <= j <= last ==> !#[trigger] occurs_at(v@, pat@, j),
        decreases last + 1 - i,
    {
        if occurs_at_exec(v, pat, i) {
            return true;
        }
        if i == last {
            break;
        }
        i += 1;
    }
    false
}

/// `str::contains`.
pub fn contains_str(s: &str, pat: &str) -> (r: bool)
    ensures
        r == contains(s@, pat@),
{
    let v = chars_of(s);
    let p = chars_of(pat);
    contains_chars(&v, &p)
}

/// `str::ends_with` on character vectors.
pub fn ends_with_chars(v: &Vec<char>, suffix: &Vec<char>) -> (r: bool)
    ensures
        r == ends_with(v@, suffix@),
{
    if suffix.len() > v.len() {
        return false;
    }
    let off = v.len() - suffix.len();
    let r = occurs_at_exec(v, suffix, off);
    r
}

/// `str::ends_with`.
pub fn ends_with_str(s: &str, suffix: &str) -> (r: bool)
    ensures
        r == ends_with(s@, suffix@),
{
    let v = chars_of(s);
    let p = chars_of(suffix);
    ends_with_chars(&v, &p)
}

/// `str::replace(from, to)` for a non-empty `from`.
pub fn replace_str(s: &str, from: &str, to: &str) -> (r: String)
    requires
        from@.len() > 0,
    ensures
        r@ == replace_all(s@, from@, to@),
{
    let v = chars_of(s);
    let f = chars_of(from);
    let t = chars_of(to);
    let mut out: Vec<char> = Vec::new();
    let mut i: usize = 0;
    assert(v@.skip(0) == v@);
    assert(out@ + v@ == v@);
    while i < v.len()
        invariant
            0 <= i <= v.len(),
            f@.len() > 0,
            out@ + replace_all(v@.skip(i as int), f@, t@) == replace_all(v@, f@, t@),
        decreases v.len() - i,
    {
        let ghost rest = v@.skip(i as int);
        if v.len() - i >= f.len() && occurs_at_exec(&v, &f, i) {
            assert(starts_with(rest, f@)) by {
                assert(rest.subrange(0, f@.len() as int) == v@.subrange(i as int, i + f@.len()));
            }
            assert(rest.skip(f@.len() as int) == v@.skip(i + f@.len()));
            let mut k: usize = 0;
            while k < t.len()
                invariant
                    0 <= k <= t.len(),
                    out@ + t@.skip(k as int) + replace_all(v@.skip(i + f@.len()), f@, t@)
                        == replace_all(v@, f@, t@),
                decreases t.len() - k,
            {
                assert(t@.skip(k as int) == seq![t@[k as int]] + t@.skip(k + 1));
                out.push(t[k]);
                k += 1;
            }
            assert(t@.skip(t.len() as int) == Seq::<char>::empty());
            assert(out@ + Seq::<char>::empty() == out@);
            i += f.len();
        } else {
            if v.len() - i >= f.len() {
                assert(!starts_with(rest, f@)) by {
                    if starts_with(rest, f@) {
                        assert(rest.subrange(0, f@.len() as int) == v@.subrange(
                            i as int,
                            i + f@.len(),
                        ));
                    }
                }
                assert(rest.drop_first() == v@.skip(i + 1));
            } else {
                assert(rest.drop_first() == v@.skip(i + 1));
                assert(replace_all(rest, f@, t@) == rest);
                assert(replace_all(rest.drop_first(), f@, t@) == rest.drop_first());
                assert(rest == seq![rest[0]] + rest.drop_first());
            }
            out.push(v[i]);
            i += 1;
        }
    }
    assert(v@.skip(v.len() as int) == Seq::<char>::empty());
    string_of(&out)
}

/// `str::trim_end_matches(pat)` for a non-empty `pat`.
pub fn trim_end_matches_str(s: &str, pat: &str) -> (r: String)
    requires
        pat@.len() > 0,
    ensures
        r@ == trim_end_matches(s@, pat@),
{
    let v = chars_of(s);
    let p = chars_of(pat);
    let mut n = v.len();
    assert(v@.take(n as int) == v@);
    while n >= p.len() && occurs_at_exec(&v, &p, n - p.len())
        invariant
            n <= v.len(),
            p@.len() > 0,
            trim_end_matches(v@, p@) == trim_end_matches(v@.take(n as int), p@),
        decreases n,
    {
        let ghost cur = v@.take(n as int);
        assert(cur.subrange(cur.len() - p@.len(), cur.len() as int) == v@.subrange(
            n - p@.len(),
            n as int,
        ));
        assert(cur.subrange(0, cur.len() - p@.len()) == v@.take(n - p@.len()));
        n -= p.len();
    }
    let ghost cur = v@.take(n as int);
    assert(!ends_with(cur, p@)) by {
        if ends_with(cur, p@) {
            assert(cur.subrange(cur.len() - p@.len(), cur.len() as int) == v@.subrange(
                n - p@.len(),
                n as int,
            ));
        }
    }
    let t = slice_chars(&v, 0, n);
    string_of(&t)
}

/// `str::lines` on a character vector.
pub fn lines_chars(v: &Vec<char>) -> (r: Vec<Vec<char>>)
    ensures
        r@.map_values(|l: Vec<char>| l@) == lines(v@),
{
    let pieces = split_chars(v, '\n');
    let ghost p = split_char(v@, '\n');
    let mut out: Vec<Vec<char>> = Vec::new();
    let n = pieces.len();
    for i in 0..n - 1
        invariant
            n == pieces.len() >= 1,
            pieces@.map_values(|q: Vec<char>| q@) == p,
            out@.map_values(|l: Vec<char>| l@) == p.take(i as int).map_values(
                |l: Seq<char>| strip_cr(l),
            ),
    {
        let piece = &pieces[i];
        let m = piece.len();
        let line = if m > 0 && piece[m - 1] == '\r' {
            slice_chars(piece, 0, m - 1)
        } else {
            slice_chars(piece, 0, m)
        };
        assert(piece@.subrange(0, m as int) == piece@);
        assert(p[i as int] == piece@);
        out.push(line);
        assert(p.take(i + 1) == p.take(i as int).push(p[i as int]));
        assert(p.take(i + 1).map_values(|l: Seq<char>| strip_cr(l)) == p.take(i as int).map_values(
            |l: Seq<char>| strip_cr(l),
        ).push(strip_cr(p[i as int])));
    }
    assert(p.take(n - 1) == p.drop_last());
    let last = &pieces[n - 1];
    assert(p.last() == last@);
    if last.len() > 0 {
        let l = slice_chars(last, 0, last.len());
        assert(last@.subrange(0, last.len() as int) == last@);
        out.push(l);
    }
    out
}

/// `Path::file_stem` of a file name.
pub fn file_stem_str(name: &str) -> (r: String)
    ensures
        r@ == file_stem(name@),
{
    let v = chars_of(name);
    let mut k: usize = v.len();
    assert(v@.take(k as int) == v@);
    while k > 0 && v[k - 1] != '.'
        invariant
            k <= v.len(),
            last_index_of(v@, '.') == last_index_of(v@.take(k as int), '.'),
        decreases k,
    {
        assert(v@.take(k as int).drop_last() == v@.take(k - 1));
        k -= 1;
    }
    if k == 0 {
        assert(v@.take(0) == Seq::<char>::empty());
    } else {
        assert(v@.take(k as int).last() == '.');
    }
    // k is one past the last '.', or zero when there is none
    if k <= 1 || (v.len() == 2 && v[0] == '.' && v[1] == '.') {
        proof {
            if v@.len() == 2 && v@[0] == '.' && v@[1] == '.' {
                assert(v@ == seq!['.', '.']);
            }
        }
        string_of(&v)
    } else {
        proof {
            if v@ == seq!['.', '.'] {
                assert(v@.len() == 2);
            }
        }
        let t = slice_chars(&v, 0, k - 1);
        string_of(&t)
    }
}

/// The leading run of non-whitespace characters.
pub fn first_word_chars(v: &Vec<char>) -> (r: Vec<char>)
    ensures
        r@ == first_word(v@),
{
    let mut k: usize = 0;
    while k < v.len() && !is_whitespace(v[k])
        invariant
            k <= v.len(),
            forall|j: int| 0 <= j < k ==> !is_ws(#[trigger] v@[j]),
        decreases v.len() - k,
    {
        k += 1;
    }
    proof {
        lemma_first_word_prefix(v@, k as int);
    }
    slice_chars(v, 0, k)
}

proof fn lemma_first_word_prefix(s: Seq<char>, k: int)
    requires
        0 <= k <= s.len(),
        forall|j: int| 0 <= j < k ==> !is_ws(#[trigger] s[j]),
        k == s.len() || is_ws(s[k]),
    ensures
        first_word(s) == s.subrange(0, k),
    decreases k,
{
    if k > 0 {
        lemma_first_word_prefix(s.drop_first(), k - 1);
        assert(s.subrange(0, k) == seq![s[0]] + s.drop_first().subrange(0, k - 1));
    }
}

} // verus!
