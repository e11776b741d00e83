//! The inline directive grammar `i::[kind(value)]`, and a scanner that finds
//! the first occurrence of a directive in paragraph text.
//!
//! A directive is the literal opener `i::[`, a non-empty run of word
//! characters (the kind: Unicode letters and digits, or an underscore), `(`,
//! a non-empty run of characters free of line breaks (the value, ended by the
//! earliest possible closer), then `)]`.
//! Scanning is first-match-wins: the match starting at the leftmost position
//! is the one reported.

use vstd::prelude::*;
use vstd::string::*;

verus! {

/// What `char::is_alphanumeric` returns for a character: whether it is a
/// Unicode letter or digit.
pub uninterp spec fn unicode_alphanumeric(c: char) -> bool;

/// Relies on `char::is_alphanumeric`: true exactly for characters with the
/// Unicode Alphabetic property or a Number general category, a function of
/// the character alone.
#[verifier::external_body]
fn unicode_alphanumeric_exec(c: char) -> (r: bool)
    ensures
        r == unicode_alphanumeric(c),
{
    c.is_alphanumeric()
}

/// A word character: a letter or digit (for ASCII, exactly `a`-`z`, `A`-`Z`,
/// `0`-`9`; beyond ASCII, any Unicode alphanumeric) or an underscore.
pub open spec fn is_word_char(c: char) -> bool {
    if (c as u32) < 128 {
        ('a' <= c && c <= 'z') || ('A' <= c && c <= 'Z') || ('0' <= c && c <= '9') || c == '_'
    } else {
        unicode_alphanumeric(c)
    }
}

/// Decides `is_word_char`.
pub fn word_char(c: char) -> (r: bool)
    ensures
        r == is_word_char(c),
{
    if (c as u32) < 128 {
        ('a' <= c && c <= 'z') || ('A' <= c && c <= 'Z') || ('0' <= c && c <= '9') || c == '_'
    } else {
        unicode_alphanumeric_exec(c)
    }
}

/// A directive occupies `s[p ..= r + 1]`: the opener `i::[` at `p`, then `k`
/// word characters (the kind, `k >= 1`), then `(`, then the value (non-empty,
/// free of `'\n'`), then `)` at `r` and `]` at `r + 1`.
pub open spec fn match_at(s: Seq<char>, p: int, k: int, r: int) -> bool {
    &&& 0 <= p
    &&& 1 <= k
    &&& p + 5 + k < r
    &&& r + 1 < s.len()
    &&& s[p] == 'i'
    &&& s[p + 1] == ':'
    &&& s[p + 2] == ':'
    &&& s[p + 3] == '['
    &&& forall|i: int| p + 4 <= i < p + 4 + k ==> is_word_char(#[trigger] s[i])
    &&& s[p + 4 + k] == '('
    &&& s[r] == ')'
    &&& s[r + 1] == ']'
    &&& forall|i: int| p + 5 + k <= i < r ==> #[trigger] s[i] != '\n'
}

/// Some directive starts at position `p`.
pub open spec fn match_from(s: Seq<char>, p: int) -> bool {
    exists|k: int, r: int| match_at(s, p, k, r)
}

/// The text contains a directive.
pub open spec fn has_directive(s: Seq<char>) -> bool {
    exists|p: int| match_from(s, p)
}

/// `(p, k, r)` is the directive the scanner reports: no directive starts
/// earlier, and no earlier closer completes the one at `p`.
pub open spec fn first_match(s: Seq<char>, p: int, k: int, r: int) -> bool {
    &&& match_at(s, p, k, r)
    &&& forall|q: int| 0 <= q < p ==> !match_from(s, q)
    &&& forall|r2: int| r2 < r ==> !match_at(s, p, k, r2)
}

/// Two matches starting at the same position capture the same kind.
pub proof fn lemma_same_start_same_kind(s: Seq<char>, p: int, k1: int, r1: int, k2: int, r2: int)
    requires
        match_at(s, p, k1, r1),
        match_at(s, p, k2, r2),
    ensures
        k1 == k2,
{
    if k1 < k2 {
        assert(is_word_char(s[p + 4 + k1]));
        assert(false);
    }
    if k2 < k1 {
        assert(is_word_char(s[p + 4 + k2]));
        assert(false);
    }
}

/// At most one triple is a first match.
pub proof fn lemma_first_match_unique(
    s: Seq<char>,
    p1: int,
    k1: int,
    r1: int,
    p2: int,
    k2: int,
    r2: int,
)
    requires
        first_match(s, p1, k1, r1),
        first_match(s, p2, k2, r2),
    ensures
        p1 == p2,
        k1 == k2,
        r1 == r2,
{
    if p1 < p2 {
        assert(match_from(s, p1));
        assert(false);
    }
    if p2 < p1 {
        assert(match_from(s, p2));
        assert(false);
    }
    lemma_same_start_same_kind(s, p1, k1, r1, k2, r2);
    if r1 < r2 {
        assert(!match_at(s, p2, k2, r1));
        assert(false);
    }
    if r2 < r1 {
        assert(!match_at(s, p1, k1, r2));
        assert(false);
    }
}

/// The start, kind length and closer position of the first directive.
pub open spec fn directive_triple(s: Seq<char>) -> (int, int, int) {
    choose|t: (int, int, int)| first_match(s, t.0, t.1, t.2)
}

/// The kind captured by the first directive.
pub open spec fn directive_kind(s: Seq<char>) -> Seq<char> {
    let t = directive_triple(s);
    s.subrange(t.0 + 4, t.0 + 4 + t.1)
}

/// The value captured by the first directive.
pub open spec fn directive_value(s: Seq<char>) -> Seq<char> {
    let t = directive_triple(s);
    s.subrange(t.0 + 5 + t.1, t.2)
}

/// A witness of a first match is the reported triple.
pub proof fn lemma_triple_is(s: Seq<char>, p: int, k: int, r: int)
    requires
        first_match(s, p, k, r),
    ensures
        directive_triple(s) == (p, k, r),
        has_directive(s),
        directive_kind(s) == s.subrange(p + 4, p + 4 + k),
        directive_value(s) == s.subrange(p + 5 + k, r),
{
    let w = (p, k, r);
    assert(first_match(s, w.0, w.1, w.2));
    let t = choose|t: (int, int, int)| first_match(s, t.0, t.1, t.2);
    lemma_first_match_unique(s, t.0, t.1, t.2, p, k, r);
    assert(match_at(s, p, k, r));
    assert(match_from(s, p));
}

/// Any match starting at `p` has its kind run ending exactly at `e`, given
/// that the word characters from `p + 4` run up to `e` and no further.
proof fn lemma_kind_run_forced(s: Seq<char>, p: int, e: int)
    requires
        0 <= p,
        p + 4 <= e <= s.len(),
        forall|i: int| p + 4 <= i < e ==> is_word_char(#[trigger] s[i]),
        e == s.len() || !is_word_char(s[e]),
    ensures
        forall|k: int, r: int| match_at(s, p, k, r) ==> p + 4 + k == e,
{
    assert forall|k: int, r: int| match_at(s, p, k, r) implies p + 4 + k == e by {
        if p + 4 + k < e {
            assert(is_word_char(s[p + 4 + k]));
            assert(false);
        }
        if p + 4 + k > e {
            assert(p + 4 + k < s.len());
            assert(is_word_char(s[e]));
            assert(false);
        }
    }
}

/// Tries to recognize a directive starting exactly at `p`; reports the kind
/// length and the closer position of the earliest completion.
fn try_match_at(text: &str, n: usize, p: usize) -> (found: Option<(usize, usize)>)
    requires
        n == text@.len(),
        p < n,
    ensures
        match found {
            Some(t) => {
                &&& match_at(text@, p as int, t.0 as int, t.1 as int)
                &&& forall|r2: int| r2 < t.1 ==> !match_at(text@, p as int, t.0 as int, r2)
            },
            None => !match_from(text@, p as int),
        },
{
    let ghost s = text@;
    if n - p < 9 {
        proof {
            assert forall|k: int, r: int| !match_at(s, p as int, k, r) by {
                if match_at(s, p as int, k, r) {
                    assert(r + 1 < n);
                    assert(p + 5 + k < r);
                    assert(false);
                }
            }
            assert(!match_from(s, p as int));
        }
        return None;
    }
    if text.get_char(p) != 'i' || text.get_char(p + 1) != ':' || text.get_char(p + 2) != ':'
        || text.get_char(p + 3) != '[' {
        return None;
    }
    let mut e: usize = p + 4;
    loop
        invariant
            n == s.len(),
            n == text@.len(),
            s == text@,
            p + 4 <= e <= n,
            forall|i: int| p + 4 <= i < e ==> is_word_char(#[trigger] s[i]),
        ensures
            p + 4 <= e <= n,
            forall|i: int| p + 4 <= i < e ==> is_word_char(#[trigger] s[i]),
            e == n || !is_word_char(s[e as int]),
        decreases n - e,
    {
        if e == n {
            break;
        }
        if !word_char(text.get_char(e)) {
            break;
        }
        e = e + 1;
    }
    proof {
        lemma_kind_run_forced(s, p as int, e as int);
    }
    if e == p + 4 {
        proof {
            assert forall|kk: int, r: int| !match_at(s, p as int, kk, r) by {
                if match_at(s, p as int, kk, r) {
                    assert(p + 4 + kk == e);
                    assert(false);
                }
            }
            assert(!match_from(s, p as int));
        }
        return None;
    }
    if e == n || text.get_char(e) != '(' {
        proof {
            assert forall|k: int, r: int| !match_at(s, p as int, k, r) by {
                if match_at(s, p as int, k, r) {
                    assert(p + 4 + k == e);
                    assert(s[p + 4 + k] == '(');
                    assert(p + 4 + k < r && r + 1 < s.len());
                    assert(false);
                }
            }
            assert(!match_from(s, p as int));
        }
        return None;
    }
    let k = e - (p + 4);
    let q = e + 1;
    if q >= n || text.get_char(q) == '\n' {
        proof {
            assert forall|kk: int, r: int| !match_at(s, p as int, kk, r) by {
                if match_at(s, p as int, kk, r) {
                    assert(p + 4 + kk == e);
                    assert(q == p + 5 + kk);
                    assert(q < r && r + 1 < s.len());
                    assert(s[q as int] != '\n');
                    assert(false);
                }
            }
            assert(!match_from(s, p as int));
        }
        return None;
    }
    let mut j: usize = q + 1;
    while j < n - 1
        invariant
            s == text@,
            n == s.len(),
            p + 4 + k == e < n,
            q == e + 1,
            q + 1 <= j <= n,
            1 <= k,
            forall|i: int| p + 4 <= i < e ==> is_word_char(#[trigger] s[i]),
            s[p as int] == 'i' && s[p + 1] == ':' && s[p + 2] == ':' && s[p + 3] == '[',
            s[e as int] == '(',
            forall|m: int| q + 1 <= m < j ==> !(#[trigger] s[m] == ')' && s[m + 1] == ']'),
            forall|m: int| q <= m < j ==> #[trigger] s[m] != '\n',
        decreases n - j,
    {
        let cj = text.get_char(j);
        if cj == ')' && text.get_char(j + 1) == ']' {
            proof {
                assert(match_at(s, p as int, k as int, j as int));
                assert forall|r2: int| r2 < j implies !match_at(s, p as int, k as int, r2) by {
                    if match_at(s, p as int, k as int, r2) {
                        assert(q < r2);
                        assert(s[r2] == ')' && s[r2 + 1] == ']');
                        assert(false);
                    }
                }
            }
            return Some((k, j));
        }
        if cj == '\n' {
            proof {
                lemma_kind_run_forced(s, p as int, e as int);
                assert forall|kk: int, r: int| !match_at(s, p as int, kk, r) by {
                    if match_at(s, p as int, kk, r) {
                        assert(p + 4 + kk == e);
                        assert(q < r && r + 1 < s.len());
                        if r < j {
                            assert(s[r] == ')' && s[r + 1] == ']');
                            assert(false);
                        } else if r == j {
                            assert(s[r] == ')');
                            assert(false);
                        } else {
                            assert(s[j as int] != '\n');
                            assert(false);
                        }
                    }
                }
            }
            return None;
        }
        j = j + 1;
    }
    proof {
        lemma_kind_run_forced(s, p as int, e as int);
        assert forall|kk: int, r: int| !match_at(s, p as int, kk, r) by {
            if match_at(s, p as int, kk, r) {
                assert(p + 4 + kk == e);
                assert(q < r && r + 1 < s.len());
                assert(r < j);
                assert(s[r] == ')' && s[r + 1] == ']');
                assert(false);
            }
        }
    }
    None
}

/// Scans `text` left to right and reports its first directive: the start
/// position, the kind length, and the position of the closing `)`.
pub fn find_directive(text: &str) -> (found: Option<(usize, usize, usize)>)
    ensures
        match found {
            Some(t) => first_match(text@, t.0 as int, t.1 as int, t.2 as int),
            None => !has_directive(text@),
        },
{
    let ghost s = text@;
    let n: usize = text.unicode_len();
    let mut p: usize = 0;
    while p < n
        invariant
            s == text@,
            n == s.len(),
            p <= n,
            forall|q: int| 0 <= q < p ==> !match_from(s, q),
        decreases n - p,
    {
        if let Some(kr) = try_match_at(text, n, p) {
            return Some((p, kr.0, kr.1));
        }
        p = p + 1;
    }
    proof {
        assert forall|q: int| !match_from(s, q) by {
            if match_from(s, q) {
                let (k, r) = choose|k: int, r: int| match_at(s, q, k, r);
                assert(q + 5 + k < r && r + 1 < s.len());
                assert(q < n);
            }
        }
        assert(!has_directive(s));
    }
    None
}

} // verus!
