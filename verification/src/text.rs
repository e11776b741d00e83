//! Text utilities: character replacement (used to escape quote characters
//! when the widget's activation attribute is built), string equality, and
//! substring occurrence.

use vstd::prelude::*;
use vstd::string::*;

verus! {

/// The sequence `s` with every occurrence of the character `c` replaced by
/// the sequence `rep`.
pub open spec fn replace_char(s: Seq<char>, c: char, rep: Seq<char>) -> Seq<char>
    decreases s.len(),
{
    if s.len() == 0 {
        Seq::empty()
    } else {
        replace_char(s.drop_last(), c, rep) + (if s.last() == c {
            rep
        } else {
            seq![s.last()]
        })
    }
}

/// Replacement distributes over concatenation.
pub proof fn lemma_replace_char_concat(a: Seq<char>, b: Seq<char>, c: char, rep: Seq<char>)
    ensures
        replace_char(a + b, c, rep) == replace_char(a, c, rep) + replace_char(b, c, rep),
    decreases b.len(),
{
    if b.len() == 0 {
        assert(a + b =~= a);
        assert(replace_char(b, c, rep) =~= Seq::<char>::empty());
        assert(replace_char(a, c, rep) + replace_char(b, c, rep) =~= replace_char(a, c, rep));
    } else {
        lemma_replace_char_concat(a, b.drop_last(), c, rep);
        assert((a + b).drop_last() =~= a + b.drop_last());
        assert((a + b).last() == b.last());
        let piece = if b.last() == c {
            rep
        } else {
            seq![b.last()]
        };
        assert(replace_char(a + b, c, rep) == (replace_char(a, c, rep) + replace_char(
            b.drop_last(),
            c,
            rep,
        )) + piece);
        assert((replace_char(a, c, rep) + replace_char(b.drop_last(), c, rep)) + piece
            =~= replace_char(a, c, rep) + (replace_char(b.drop_last(), c, rep) + piece));
    }
}

/// If `rep` itself is free of `c`, the replaced text is free of `c`.
pub proof fn lemma_replace_char_free(s: Seq<char>, c: char, rep: Seq<char>)
    requires
        forall|i: int| 0 <= i < rep.len() ==> rep[i] != c,
    ensures
        forall|i: int|
            0 <= i < replace_char(s, c, rep).len() ==> replace_char(s, c, rep)[i] != c,
    decreases s.len(),
{
    if s.len() == 0 {
    } else {
        lemma_replace_char_free(s.drop_last(), c, rep);
        let r0 = replace_char(s.drop_last(), c, rep);
        let piece = if s.last() == c {
            rep
        } else {
            seq![s.last()]
        };
        assert(replace_char(s, c, rep) == r0 + piece);
        assert forall|i: int| 0 <= i < (r0 + piece).len() implies (r0 + piece)[i] != c by {
            if i < r0.len() {
            } else {
                if s.last() != c {
                    assert(piece[i - r0.len()] == s.last());
                }
            }
        }
    }
}

/// Builds the string `s` with every occurrence of `c` replaced by `rep`.
pub fn replace_char_str(s: &str, c: char, rep: &str) -> (out: String)
    ensures
        out@ == replace_char(s@, c, rep@),
{
    let n: usize = s.unicode_len();
    let mut out = String::new();
    let mut i: usize = 0;
    while i < n
        invariant
            n == s@.len(),
            i <= n,
            out@ == replace_char(s@.subrange(0, i as int), c, rep@),
        decreases n - i,
    {
        let ch = s.get_char(i);
        proof {
            assert(s@.subrange(0, i + 1).drop_last() =~= s@.subrange(0, i as int));
            assert(s@.subrange(0, i + 1).last() == s@[i as int]);
        }
        if ch == c {
            out.append(rep);
        } else {
            let piece = s.substring_char(i, i + 1);
            proof {
                assert(piece@ =~= seq![s@[i as int]]);
            }
            out.append(piece);
        }
        i = i + 1;
    }
    proof {
        assert(s@.subrange(0, n as int) =~= s@);
    }
    out
}

/// Replacement leaves a text free of `c` unchanged.
pub proof fn lemma_replace_char_absent(s: Seq<char>, c: char, rep: Seq<char>)
    requires
        forall|i: int| 0 <= i < s.len() ==> s[i] != c,
    ensures
        replace_char(s, c, rep) == s,
    decreases s.len(),
{
    if s.len() == 0 {
        assert(replace_char(s, c, rep) =~= s);
    } else {
        lemma_replace_char_absent(s.drop_last(), c, rep);
        assert(s.last() != c);
        assert(replace_char(s, c, rep) == s.drop_last() + seq![s.last()]);
        assert(s.drop_last() + seq![s.last()] =~= s);
    }
}

/// Replacement of a character other than `x` keeps a text free of `x` free of
/// it, provided `rep` is free of `x` too.
pub proof fn lemma_replace_preserves_absence(s: Seq<char>, c: char, rep: Seq<char>, x: char)
    requires
        forall|i: int| 0 <= i < s.len() ==> s[i] != x,
        forall|i: int| 0 <= i < rep.len() ==> rep[i] != x,
    ensures
        forall|i: int|
            0 <= i < replace_char(s, c, rep).len() ==> replace_char(s, c, rep)[i] != x,
    decreases s.len(),
{
    if s.len() == 0 {
    } else {
        lemma_replace_preserves_absence(s.drop_last(), c, rep, x);
        let r0 = replace_char(s.drop_last(), c, rep);
        let piece = if s.last() == c {
            rep
        } else {
            seq![s.last()]
        };
        assert(replace_char(s, c, rep) == r0 + piece);
        assert forall|i: int| 0 <= i < (r0 + piece).len() implies (r0 + piece)[i] != x by {
            if i >= r0.len() && s.last() != c {
                assert(piece[i - r0.len()] == s.last());
            }
        }
    }
}

/// No occurrence of the character pair `(x, y)` in `s`.
pub open spec fn bigram_free(s: Seq<char>, x: char, y: char) -> bool {
    forall|i: int| 0 <= i < s.len() - 1 ==> !(#[trigger] s[i] == x && s[i + 1] == y)
}

/// A concatenation is free of the pair `(x, y)` when both parts are and the
/// pair does not form across the boundary.
pub proof fn lemma_bigram_free_concat(a: Seq<char>, b: Seq<char>, x: char, y: char)
    requires
        bigram_free(a, x, y),
        bigram_free(b, x, y),
        a.len() > 0 && b.len() > 0 ==> !(a.last() == x && b[0] == y),
    ensures
        bigram_free(a + b, x, y),
{
    let w = a + b;
    assert forall|i: int| 0 <= i < w.len() - 1 implies !(#[trigger] w[i] == x && w[i + 1] == y) by {
        if i + 1 < a.len() {
            assert(w[i] == a[i] && w[i + 1] == a[i + 1]);
        } else if i >= a.len() {
            assert(w[i] == b[i - a.len()] && w[i + 1] == b[i + 1 - a.len()]);
        } else {
            assert(w[i] == a[a.len() - 1] && w[i + 1] == b[0]);
        }
    }
}

/// The last character a replacement leaves: the replacement's own last
/// character where the text ended in `c`, the text's last character otherwise.
pub proof fn lemma_replace_last(s: Seq<char>, c: char, rep: Seq<char>)
    requires
        s.len() > 0,
        rep.len() > 0,
    ensures
        replace_char(s, c, rep).len() > 0,
        replace_char(s, c, rep).last() == if s.last() == c {
            rep.last()
        } else {
            s.last()
        },
{
    let r0 = replace_char(s.drop_last(), c, rep);
    let piece = if s.last() == c {
        rep
    } else {
        seq![s.last()]
    };
    assert(replace_char(s, c, rep) == r0 + piece);
    assert((r0 + piece).last() == piece.last());
}

/// Replacement keeps a text free of the pair `(x, y)` free of it, provided
/// the replacement text is free of `x` and does not open with `y`.
pub proof fn lemma_replace_bigram_free(s: Seq<char>, c: char, rep: Seq<char>, x: char, y: char)
    requires
        bigram_free(s, x, y),
        rep.len() > 0,
        forall|i: int| 0 <= i < rep.len() ==> rep[i] != x,
        rep[0] != y,
    ensures
        bigram_free(replace_char(s, c, rep), x, y),
    decreases s.len(),
{
    if s.len() == 0 {
    } else {
        let pre = s.drop_last();
        assert(bigram_free(pre, x, y));
        lemma_replace_bigram_free(pre, c, rep, x, y);
        let r0 = replace_char(pre, c, rep);
        let piece = if s.last() == c {
            rep
        } else {
            seq![s.last()]
        };
        assert(bigram_free(piece, x, y)) by {
            if s.last() == c {
            } else {
                assert(piece.len() == 1);
            }
        }
        if r0.len() > 0 {
            lemma_replace_last(pre, c, rep);
            if r0.last() == x && piece[0] == y {
                // the pair would have to come from the text itself
                assert(pre.len() > 0);
                assert(pre.last() != c ==> r0.last() == pre.last());
                assert(rep.last() != x);
                assert(pre.last() == x);
                assert(s.last() != c ==> piece[0] == s.last());
                assert(rep[0] != y);
                assert(s.last() == y);
                assert(s[pre.len() - 1] == x && s[pre.len() as int] == y);
                assert(false);
            }
        }
        lemma_bigram_free_concat(r0, piece, x, y);
        assert(replace_char(s, c, rep) == r0 + piece);
    }
}

/// Character-by-character string equality.
pub fn str_eq(a: &str, b: &str) -> (r: bool)
    ensures
        r == (a@ == b@),
{
    let na: usize = a.unicode_len();
    let nb: usize = b.unicode_len();
    if na != nb {
        return false;
    }
    let mut i: usize = 0;
    while i < na
        invariant
            na == a@.len(),
            nb == b@.len(),
            na == nb,
            i <= na,
            forall|j: int| 0 <= j < i ==> a@[j] == b@[j],
        decreases na - i,
    {
        if a.get_char(i) != b.get_char(i) {
            return false;
        }
        i = i + 1;
    }
    proof {
        assert(a@ =~= b@);
    }
    true
}

/// `pat` occurs in `s` starting at position `i`.
pub open spec fn occurs_at(s: Seq<char>, pat: Seq<char>, i: int) -> bool {
    0 <= i && i + pat.len() <= s.len() && s.subrange(i, i + pat.len()) == pat
}

/// A pattern occurring in the middle piece of a concatenation occurs in the
/// whole, shifted by the leading piece's length.
pub proof fn lemma_occurs_in_middle(a: Seq<char>, b: Seq<char>, c: Seq<char>, pat: Seq<char>, i: int)
    requires
        occurs_at(b, pat, i),
    ensures
        occurs_at(a + b + c, pat, a.len() + i),
{
    let w = a + b + c;
    let j = a.len() + i;
    assert(w.subrange(j, j + pat.len()) =~= b.subrange(i, i + pat.len()));
}

} // verus!
