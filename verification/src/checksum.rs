//! SHA-256 digests, their hexadecimal rendering, comparison of checksum
//! strings and extraction of a checksum from a published checksum file.
use vstd::prelude::*;
use crate::text::{ascii_lowercase, is_ascii_text, chars_of, first_word, first_word_chars, is_hex_digit, lines, lines_chars, push_char, string_of, trim, trim_chars};

verus! {

// ---------------------------------------------------------------------------
// Calls into sha2 and std
// ---------------------------------------------------------------------------

/// The SHA-256 digest of a byte sequence, as computed by the `sha2` crate.
pub uninterp spec fn sha256(data: Seq<u8>) -> Seq<u8>;

/// Calls `sha2::Sha256::digest` (through the `Digest` trait). The contract
/// claims that the result is the digest named `sha256` of the input and that
/// it is 32 bytes long, as the crate documents for SHA-256.
#[verifier::external_body]
fn sha256_digest(data: &[u8]) -> (r: Vec<u8>)
    ensures
        r@ == sha256(data@),
        r@.len() == 32,
{
    <sha2::Sha256 as sha2::Digest>::digest(data).to_vec()
}

/// Unicode lower-casing of a text, as computed by `str::to_lowercase`.
pub uninterp spec fn unicode_lowercase(s: Seq<char>) -> Seq<char>;

/// Calls `str::to_lowercase`. The contract claims that the result is the
/// lower-casing named `unicode_lowercase` of the input, and that on ASCII
/// text it lower-cases the letters `A`-`Z` one for one and keeps every other
/// character; the Unicode case tables for other text are left unstated.
#[verifier::external_body]
pub(crate) fn to_lowercase(s: &str) -> (r: String)
    ensures
        r@ == unicode_lowercase(s@),
        is_ascii_text(s@) ==> r@ == ascii_lowercase(s@),
{
    s.to_lowercase()
}

// ---------------------------------------------------------------------------
// Models
// ---------------------------------------------------------------------------

/// The lower-case hexadecimal digit for a value below 16.
pub open spec fn hex_digit(n: u8) -> char {
    if n == 0 { '0' }
    else if n == 1 { '1' }
    else if n == 2 { '2' }
    else if n == 3 { '3' }
    else if n == 4 { '4' }
    else if n == 5 { '5' }
    else if n == 6 { '6' }
    else if n == 7 { '7' }
    else if n == 8 { '8' }
    else if n == 9 { '9' }
    else if n == 10 { 'a' }
    else if n == 11 { 'b' }
    else if n == 12 { 'c' }
    else if n == 13 { 'd' }
    else if n == 14 { 'e' }
    else { 'f' }
}

/// Lower-case hexadecimal rendering, two digits per byte (`{:x}` of a digest).
pub open spec fn hex_lower(data: Seq<u8>) -> Seq<char>
    decreases data.len(),
{
    if data.len() == 0 {
        Seq::<char>::empty()
    } else {
        hex_lower(data.drop_last()) + seq![
            hex_digit(data.last() / 16),
            hex_digit(data.last() % 16),
        ]
    }
}

/// The text without spaces and line feeds.
pub open spec fn without_blanks(s: Seq<char>) -> Seq<char>
    decreases s.len(),
{
    if s.len() == 0 {
        s
    } else if s.last() == ' ' || s.last() == '\n' {
        without_blanks(s.drop_last())
    } else {
        without_blanks(s.drop_last()).push(s.last())
    }
}

/// Two checksum texts denote the same checksum: they are equal once spaces
/// and line feeds are dropped and both are lower-cased.
pub open spec fn checksums_equal(a: Seq<char>, b: Seq<char>) -> bool {
    unicode_lowercase(without_blanks(a)) == unicode_lowercase(without_blanks(b))
}

/// The content's SHA-256 digest, rendered in lower-case hexadecimal, matches
/// the expected checksum text.
pub open spec fn digest_matches(data: Seq<u8>, expected: Seq<char>) -> bool {
    checksums_equal(hex_lower(sha256(data)), expected)
}

/// A valid SHA-256 text: exactly 64 ASCII hexadecimal digits.
pub open spec fn is_sha256_text(w: Seq<char>) -> bool {
    w.len() == 64 && forall|i: int| 0 <= i < w.len() ==> #[trigger] is_hex_digit(w[i])
}

/// The checksum that a line of a checksum file offers: its first word, when
/// the line is not blank and that word is a SHA-256 text.
pub open spec fn line_checksum(line: Seq<char>) -> Option<Seq<char>> {
    let t = trim(line);
    if t.len() > 0 && is_sha256_text(first_word(t)) {
        Some(first_word(t))
    } else {
        None
    }
}

/// The checksum of the first line that offers one.
pub open spec fn first_checksum(ls: Seq<Seq<char>>) -> Option<Seq<char>>
    decreases ls.len(),
{
    if ls.len() == 0 {
        None
    } else if line_checksum(ls[0]) is Some {
        line_checksum(ls[0])
    } else {
        first_checksum(ls.drop_first())
    }
}

// ---------------------------------------------------------------------------
// Laws
// ---------------------------------------------------------------------------

/// A checksum taken from a checksum file is always 64 hexadecimal digits.
pub proof fn law_parsed_checksum_is_sha256_text(ls: Seq<Seq<char>>)
    ensures
        first_checksum(ls) matches Some(h) ==> is_sha256_text(h),
    decreases ls.len(),
{
    if ls.len() > 0 && line_checksum(ls[0]) is None {
        law_parsed_checksum_is_sha256_text(ls.drop_first());
    }
}

/// Comparing checksum texts is an equivalence.
pub proof fn law_checksum_comparison_is_equivalence(a: Seq<char>, b: Seq<char>, c: Seq<char>)
    ensures
        checksums_equal(a, a),
        checksums_equal(a, b) == checksums_equal(b, a),
        checksums_equal(a, b) && checksums_equal(b, c) ==> checksums_equal(a, c),
{
}

/// A lower-case hexadecimal digit.
pub open spec fn is_lower_hex_char(c: char) -> bool {
    let u = c as u32;
    (0x30 <= u && u <= 0x39) || (0x61 <= u && u <= 0x66)
}

/// The content's digest, in lower-case hexadecimal, is the expected text
/// once spaces and line feeds are dropped and `A`-`Z` lower-cased: how a
/// checksum given in ASCII is compared.
pub open spec fn matches_ascii_checksum(data: Seq<u8>, expected: Seq<char>) -> bool {
    hex_lower(sha256(data)) == ascii_lowercase(without_blanks(expected))
}

proof fn lemma_hex_digit_lower(n: u8)
    ensures
        is_lower_hex_char(hex_digit(n)),
{
}

/// Hexadecimal rendering gives two lower-case digits per byte: ASCII text
/// with nothing to drop and nothing to lower-case.
pub proof fn lemma_hex_lower_text(data: Seq<u8>)
    ensures
        hex_lower(data).len() == 2 * data.len(),
        is_ascii_text(hex_lower(data)),
        without_blanks(hex_lower(data)) == hex_lower(data),
        ascii_lowercase(hex_lower(data)) == hex_lower(data),
{
    lemma_hex_lower_digits(data);
    lemma_lower_hex_text(hex_lower(data));
}

proof fn lemma_hex_lower_digits(data: Seq<u8>)
    ensures
        hex_lower(data).len() == 2 * data.len(),
        forall|i: int| 0 <= i < hex_lower(data).len() ==> is_lower_hex_char(#[trigger] hex_lower(data)[i]),
    decreases data.len(),
{
    if data.len() > 0 {
        lemma_hex_lower_digits(data.drop_last());
        lemma_hex_digit_lower(data.last() / 16);
        lemma_hex_digit_lower(data.last() % 16);
        let h = hex_lower(data.drop_last());
        let t = seq![hex_digit(data.last() / 16), hex_digit(data.last() % 16)];
        assert forall|i: int| 0 <= i < (h + t).len() implies is_lower_hex_char(#[trigger] (h + t)[i]) by {
            if i < h.len() {
                assert((h + t)[i] == h[i]);
            } else {
                assert((h + t)[i] == t[i - h.len()]);
            }
        }
    }
}

proof fn lemma_lower_hex_text(h: Seq<char>)
    requires
        forall|i: int| 0 <= i < h.len() ==> is_lower_hex_char(#[trigger] h[i]),
    ensures
        is_ascii_text(h),
        without_blanks(h) == h,
        ascii_lowercase(h) == h,
    decreases h.len(),
{
    assert(ascii_lowercase(h) =~= h);
    if h.len() > 0 {
        assert forall|i: int| 0 <= i < h.drop_last().len() implies is_lower_hex_char(
            #[trigger] h.drop_last()[i],
        ) by {
            assert(h.drop_last()[i] == h[i]);
        }
        lemma_lower_hex_text(h.drop_last());
        assert(is_lower_hex_char(h[h.len() - 1]));
        assert(h.drop_last().push(h.last()) == h);
    }
}

/// A text with nothing but spaces and line feeds is ASCII.
pub proof fn lemma_blank_text_is_ascii(e: Seq<char>)
    requires
        without_blanks(e).len() == 0,
    ensures
        is_ascii_text(e),
    decreases e.len(),
{
    if e.len() > 0 {
        assert(e.last() == ' ' || e.last() == '\n');
        lemma_blank_text_is_ascii(e.drop_last());
        assert forall|i: int| 0 <= i < e.len() implies (#[trigger] e[i] as u32) < 0x80 by {
            if i < e.len() - 1 {
                assert(e[i] == e.drop_last()[i]);
            }
        }
    }
}

/// Error of `parse_sha256_from_text`.
pub enum ChecksumTextError {
    /// No line of the text starts with a SHA-256 text.
    NoValidHash,
}

// ---------------------------------------------------------------------------
// Executable functions
// ---------------------------------------------------------------------------

fn hex_digit_exec(n: u8) -> (c: char)
    requires
        n < 16,
    ensures
        c == hex_digit(n),
{
    if n == 0 { '0' }
    else if n == 1 { '1' }
    else if n == 2 { '2' }
    else if n == 3 { '3' }
    else if n == 4 { '4' }
    else if n == 5 { '5' }
    else if n == 6 { '6' }
    else if n == 7 { '7' }
    else if n == 8 { '8' }
    else if n == 9 { '9' }
    else if n == 10 { 'a' }
    else if n == 11 { 'b' }
    else if n == 12 { 'c' }
    else if n == 13 { 'd' }
    else if n == 14 { 'e' }
    else { 'f' }
}

/// Renders bytes in lower-case hexadecimal, two digits per byte.
pub fn hex_encode(data: &[u8]) -> (r: String)
    ensures
        r@ == hex_lower(data@),
{
    let mut out = String::new();
    for i in 0..data.len()
        invariant
            out@ == hex_lower(data@.take(i as int)),
    {
        let b = data[i];
        assert(data@.take(i + 1).drop_last() == data@.take(i as int));
        push_char(&mut out, hex_digit_exec(b / 16));
        push_char(&mut out, hex_digit_exec(b % 16));
    }
    assert(data@.take(data.len() as int) == data@);
    out
}

/// The lower-case hexadecimal SHA-256 digest of the content.
pub fn sha256_hex(data: &[u8]) -> (r: String)
    ensures
        r@ == hex_lower(sha256(data@)),
        r@.len() == 64,
        is_ascii_text(r@),
        without_blanks(r@) == r@,
        ascii_lowercase(r@) == r@,
{
    let digest = sha256_digest(data);
    proof {
        lemma_hex_lower_text(digest@);
    }
    hex_encode(digest.as_slice())
}

fn strip_blanks(s: &str) -> (r: String)
    ensures
        r@ == without_blanks(s@),
{
    let v = chars_of(s);
    let mut out = String::new();
    for i in 0..v.len()
        invariant
            out@ == without_blanks(v@.take(i as int)),
    {
        assert(v@.take(i + 1).drop_last() == v@.take(i as int));
        let c = v[i];
        if c != ' ' && c != '\n' {
            push_char(&mut out, c);
        }
    }
    assert(v@.take(v.len() as int) == v@);
    out
}

/// Dropping characters keeps a text ASCII.
proof fn lemma_without_blanks_ascii(s: Seq<char>)
    requires
        is_ascii_text(s),
    ensures
        is_ascii_text(without_blanks(s)),
    decreases s.len(),
{
    if s.len() > 0 {
        assert(is_ascii_text(s.drop_last())) by {
            assert forall|i: int| 0 <= i < s.drop_last().len() implies (#[trigger] s.drop_last()[i]
                as u32) < 0x80 by {
                assert(s.drop_last()[i] == s[i]);
            }
        }
        lemma_without_blanks_ascii(s.drop_last());
        let w = without_blanks(s.drop_last());
        assert((s.last() as u32) < 0x80);
        assert forall|i: int| 0 <= i < w.push(s.last()).len() implies (#[trigger] w.push(
            s.last(),
        )[i] as u32) < 0x80 by {
            if i < w.len() {
                assert(w.push(s.last())[i] == w[i]);
            }
        }
    }
}

/// Compares two checksum texts, ignoring spaces, line feeds and case: on
/// ASCII texts, they are equal when they agree after dropping spaces and line
/// feeds and lower-casing `A`-`Z`.
pub fn hex_str_eq(a: &str, b: &str) -> (r: bool)
    ensures
        r == checksums_equal(a@, b@),
        is_ascii_text(a@) && is_ascii_text(b@) ==> (r == (ascii_lowercase(without_blanks(a@))
            == ascii_lowercase(without_blanks(b@)))),
{
    proof {
        if is_ascii_text(a@) {
            lemma_without_blanks_ascii(a@);
        }
        if is_ascii_text(b@) {
            lemma_without_blanks_ascii(b@);
        }
    }
    let a_stripped = strip_blanks(a);
    let b_stripped = strip_blanks(b);
    let a_lower = to_lowercase(a_stripped.as_str());
    let b_lower = to_lowercase(b_stripped.as_str());
    a_lower == b_lower
}

/// Whether the content's SHA-256 digest matches the expected checksum text.
///
/// For an ASCII expected text the answer is `matches_ascii_checksum`; an
/// expected text with nothing left once spaces and line feeds are dropped
/// never matches.
pub fn digest_matches_exec(data: &[u8], expected: &str) -> (r: bool)
    ensures
        r == digest_matches(data@, expected@),
        is_ascii_text(expected@) ==> (r == matches_ascii_checksum(data@, expected@)),
        without_blanks(expected@).len() == 0 ==> !r,
{
    let computed = sha256_hex(data);
    proof {
        lemma_hex_lower_text(sha256(data@));
        if without_blanks(expected@).len() == 0 {
            lemma_blank_text_is_ascii(expected@);
            assert(ascii_lowercase(without_blanks(expected@)).len() == 0);
        }
    }
    hex_str_eq(computed.as_str(), expected)
}

fn is_sha256_word(w: &Vec<char>) -> (r: bool)
    ensures
        r == is_sha256_text(w@),
{
    if w.len() != 64 {
        return false;
    }
    for i in 0..w.len()
        invariant
            forall|k: int| 0 <= k < i ==> #[trigger] is_hex_digit(w@[k]),
    {
        let u = w[i] as u32;
        if !((0x30 <= u && u <= 0x39) || (0x41 <= u && u <= 0x46) || (0x61 <= u && u <= 0x66)) {
            assert(!is_hex_digit(w@[i as int]));
            return false;
        }
    }
    true
}

/// The first SHA-256 text that starts a non-blank line of a checksum file.
pub fn parse_sha256_from_text(text: &str) -> (r: Result<String, ChecksumTextError>)
    ensures
        match r {
            Ok(h) => first_checksum(lines(text@)) == Some(h@),
            Err(_) => first_checksum(lines(text@)) is None,
        },
{
    let v = chars_of(text);
    let ls = lines_chars(&v);
    let ghost all = lines(text@);
    assert(ls@.map_values(|l: Vec<char>| l@) == all);
    let n = ls.len();
    assert(all.skip(0) == all);
    for i in 0..n
        invariant
            n == ls.len(),
            ls@.map_values(|l: Vec<char>| l@) == all,
            all == lines(text@),
            first_checksum(all) == first_checksum(all.skip(i as int)),
    {
        let ghost rest = all.skip(i as int);
        assert(all.len() == n);
        assert(rest[0] == ls@[i as int]@);
        assert(rest.drop_first() == all.skip(i + 1));
        let t = trim_chars(&ls[i]);
        if t.len() > 0 {
            let w = first_word_chars(&t);
            if is_sha256_word(&w) {
                assert(line_checksum(rest[0]) == Some(w@));
                assert(rest.len() > 0);
                assert(first_checksum(rest) == Some(w@));
                return Ok(string_of(&w));
            }
        }
    }
    assert(all.skip(n as int).len() == 0);
    Err(ChecksumTextError::NoValidHash)
}

} // verus!
