//! Verified text matching over UTF-8 bytes, and the trusted calls for
//! case folding and regular expressions.
//!
//! Substring search, prefix and suffix tests, and the lexicographic order
//! used when sorting text columns are all stated and proved over the UTF-8
//! byte sequence of a string (`spec_bytes`).  Case-insensitive matching
//! lowercases both sides first; what lowercasing yields is named by
//! [`lower_of`] and trusted to `str::to_lowercase`.

use vstd::prelude::*;
use vstd::string::StringSliceAdditionalSpecFns;

verus! {

/// `n` occurs in `h` at position `i`.
pub open spec fn matches_at(h: Seq<u8>, n: Seq<u8>, i: int) -> bool {
    0 <= i && i + n.len() <= h.len() && h.subrange(i, i + n.len()) == n
}

/// `n` occurs somewhere in `h`.
pub open spec fn contains_seq(h: Seq<u8>, n: Seq<u8>) -> bool {
    exists|i: int| matches_at(h, n, i)
}

/// `h` begins with `n`.
pub open spec fn starts_with_seq(h: Seq<u8>, n: Seq<u8>) -> bool {
    n.len() <= h.len() && h.subrange(0, n.len() as int) == n
}

/// `h` ends with `n`.
pub open spec fn ends_with_seq(h: Seq<u8>, n: Seq<u8>) -> bool {
    n.len() <= h.len() && h.subrange(h.len() - n.len(), h.len() as int) == n
}

/// Does `h[at .. at + n.len()]` equal `n`?
fn eq_at(h: &[u8], n: &[u8], at: usize) -> (r: bool)
    requires
        at + n@.len() <= h@.len(),
    ensures
        r == (h@.subrange(at as int, at + n@.len()) =~= n@),
{
    let m = n.len();
    let hlen = h.len();
    let ghost win = h@.subrange(at as int, at + n@.len());
    let mut j: usize = 0;
    while j < m
        invariant
            at + m <= h@.len(),
            hlen == h@.len(),
            m == n@.len(),
            j <= m,
            win == h@.subrange(at as int, at + n@.len()),
            forall|k: int| 0 <= k < j ==> #[trigger] win[k] == n@[k],
        decreases m - j,
    {
        if h[at + j] != n[j] {
            assert(win[j as int] != n@[j as int]);
            return false;
        }
        assert(win[j as int] == n@[j as int]);
        j = j + 1;
    }
    assert(win =~= n@);
    true
}

/// Substring search over bytes.
pub fn bytes_contains(h: &[u8], n: &[u8]) -> (r: bool)
    ensures
        r == contains_seq(h@, n@),
{
    let hl = h.len();
    let nl = n.len();
    if nl > hl {
        assert(!contains_seq(h@, n@));
        return false;
    }
    let mut i: usize = 0;
    while i <= hl - nl
        invariant
            nl <= hl,
            hl == h@.len(),
            nl == n@.len(),
            i <= hl - nl + 1,
            forall|k: int| 0 <= k < i ==> !matches_at(h@, n@, k),
        decreases hl - nl - i + 1,
    {
        if eq_at(h, n, i) {
            assert(matches_at(h@, n@, i as int));
            return true;
        }
        i = i + 1;
    }
    assert forall|k: int| !matches_at(h@, n@, k) by {
        if 0 <= k <= hl - nl {
            assert(!matches_at(h@, n@, k));
        }
    }
    false
}

/// Prefix test over bytes.
pub fn bytes_starts_with(h: &[u8], n: &[u8]) -> (r: bool)
    ensures
        r == starts_with_seq(h@, n@),
{
    if n.len() > h.len() {
        return false;
    }
    eq_at(h, n, 0)
}

/// Suffix test over bytes.
pub fn bytes_ends_with(h: &[u8], n: &[u8]) -> (r: bool)
    ensures
        r == ends_with_seq(h@, n@),
{
    if n.len() > h.len() {
        return false;
    }
    eq_at(h, n, h.len() - n.len())
}

/// Three-way lexicographic order on byte sequences: `-1`, `0`, or `1`.
pub open spec fn lex_cmp_seq(a: Seq<u8>, b: Seq<u8>) -> int
    decreases a.len(),
{
    if a.len() == 0 && b.len() == 0 {
        0
    } else if a.len() == 0 {
        -1
    } else if b.len() == 0 {
        1
    } else if a[0] < b[0] {
        -1
    } else if a[0] > b[0] {
        1
    } else {
        lex_cmp_seq(a.drop_first(), b.drop_first())
    }
}

/// Dropping an equal prefix does not change the order.
proof fn lemma_lex_cmp_skip(a: Seq<u8>, b: Seq<u8>, i: int)
    requires
        0 <= i <= a.len(),
        i <= b.len(),
        forall|j: int| 0 <= j < i ==> a[j] == b[j],
    ensures
        lex_cmp_seq(a, b) == lex_cmp_seq(a.skip(i), b.skip(i)),
    decreases i,
{
    if i > 0 {
        assert(a.len() > 0 && b.len() > 0 && a[0] == b[0]);
        assert(a.drop_first().skip(i - 1) =~= a.skip(i));
        assert(b.drop_first().skip(i - 1) =~= b.skip(i));
        assert(forall|j: int| 0 <= j < i - 1 ==> a.drop_first()[j] == b.drop_first()[j]);
        lemma_lex_cmp_skip(a.drop_first(), b.drop_first(), i - 1);
    } else {
        assert(a.skip(0) =~= a);
        assert(b.skip(0) =~= b);
    }
}

/// Three-way byte comparison of two byte slices.
pub fn bytes_cmp(a: &[u8], b: &[u8]) -> (r: i8)
    ensures
        r as int == lex_cmp_seq(a@, b@),
        -1 <= r <= 1,
{
    let al = a.len();
    let bl = b.len();
    let m = if al < bl {
        al
    } else {
        bl
    };
    let mut i: usize = 0;
    while i < m
        invariant
            al == a@.len(),
            bl == b@.len(),
            m == if al < bl {
                al
            } else {
                bl
            },
            i <= m,
            forall|j: int| 0 <= j < i ==> a@[j] == b@[j],
        decreases m - i,
    {
        let x = a[i];
        let y = b[i];
        if x < y {
            proof {
                lemma_lex_cmp_skip(a@, b@, i as int);
                assert(a@.skip(i as int)[0] == x);
                assert(b@.skip(i as int)[0] == y);
            }
            return -1;
        }
        if x > y {
            proof {
                lemma_lex_cmp_skip(a@, b@, i as int);
                assert(a@.skip(i as int)[0] == x);
                assert(b@.skip(i as int)[0] == y);
            }
            return 1;
        }
        i = i + 1;
    }
    proof {
        lemma_lex_cmp_skip(a@, b@, m as int);
    }
    if al == bl {
        proof {
            assert(a@.skip(m as int).len() == 0 && b@.skip(m as int).len() == 0);
        }
        0
    } else if al < bl {
        proof {
            assert(a@.skip(m as int).len() == 0 && b@.skip(m as int).len() > 0);
        }
        -1
    } else {
        proof {
            assert(a@.skip(m as int).len() > 0 && b@.skip(m as int).len() == 0);
        }
        1
    }
}

/// Substring search on the UTF-8 bytes of two strings.
pub fn str_contains(h: &str, n: &str) -> (r: bool)
    ensures
        r == contains_seq(h.spec_bytes(), n.spec_bytes()),
{
    bytes_contains(h.as_bytes(), n.as_bytes())
}

/// Prefix test on the UTF-8 bytes of two strings.
pub fn str_starts_with(h: &str, n: &str) -> (r: bool)
    ensures
        r == starts_with_seq(h.spec_bytes(), n.spec_bytes()),
{
    bytes_starts_with(h.as_bytes(), n.as_bytes())
}

/// Suffix test on the UTF-8 bytes of two strings.
pub fn str_ends_with(h: &str, n: &str) -> (r: bool)
    ensures
        r == ends_with_seq(h.spec_bytes(), n.spec_bytes()),
{
    bytes_ends_with(h.as_bytes(), n.as_bytes())
}

/// Three-way byte order of two strings.
pub fn str_cmp(a: &str, b: &str) -> (r: i8)
    ensures
        r as int == lex_cmp_seq(a.spec_bytes(), b.spec_bytes()),
        -1 <= r <= 1,
{
    bytes_cmp(a.as_bytes(), b.as_bytes())
}

/// The lowercase form of a character sequence, as `str::to_lowercase`
/// computes it.
pub uninterp spec fn lower_of(s: Seq<char>) -> Seq<char>;

/// Relies on str::to_lowercase: the result depends on the characters alone.
#[verifier::external_body]
pub(crate) fn to_lower(s: &str) -> (r: String)
    ensures
        r@ == lower_of(s@),
{
    s.to_lowercase()
}

/// Whether the pattern compiles as a regular expression under the given
/// case-insensitivity flag, as `regex::RegexBuilder::build` decides it.
pub uninterp spec fn regex_valid(pattern: Seq<char>, case_insensitive: bool) -> bool;

/// Whether the compiled pattern matches somewhere in the text, as
/// `regex::Regex::is_match` decides it.
pub uninterp spec fn regex_match(pattern: Seq<char>, case_insensitive: bool, text: Seq<char>) -> bool;

/// Relies on regex::RegexBuilder::build: whether a pattern compiles depends
/// on the pattern text and the case-insensitivity flag alone.
#[verifier::external_body]
pub(crate) fn regex_pattern_ok(pattern: &str, case_insensitive: bool) -> (r: bool)
    ensures
        r == regex_valid(pattern@, case_insensitive),
{
    regex::RegexBuilder::new(pattern).case_insensitive(case_insensitive).build().is_ok()
}

/// Relies on regex::RegexBuilder::build and regex::Regex::is_match: both the
/// compile verdict and the match verdict depend on the pattern, the flag,
/// and the text alone.
#[verifier::external_body]
pub(crate) fn regex_is_match(pattern: &str, case_insensitive: bool, text: &str) -> (r: Option<bool>)
    ensures
        r.is_some() == regex_valid(pattern@, case_insensitive),
        r.is_some() ==> r.unwrap() == regex_match(pattern@, case_insensitive, text@),
{
    match regex::RegexBuilder::new(pattern).case_insensitive(case_insensitive).build() {
        Ok(re) => Some(re.is_match(text)),
        Err(_) => None,
    }
}

} // verus!
