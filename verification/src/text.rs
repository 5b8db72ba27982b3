//! Character-sequence logic: trimming leading dots from a filter, taking the
//! suffix after the last occurrence of a separator, substring search, and
//! ASCII case-insensitive comparison.

use vstd::prelude::*;

verus! {

/// `s` without its leading dots.
pub open spec fn trim_dots(s: Seq<char>) -> Seq<char>
    decreases s.len(),
{
    if s.len() > 0 && s[0] == '.' {
        trim_dots(s.subrange(1, s.len() as int))
    } else {
        s
    }
}

/// Whether `c` occurs in `s`.
pub open spec fn has_char(s: Seq<char>, c: char) -> bool {
    exists|i: int| 0 <= i < s.len() && s[i] == c
}

/// The suffix of `s` after the last occurrence of `c`; all of `s` when `c`
/// does not occur.
pub open spec fn after_last(s: Seq<char>, c: char) -> Seq<char>
    decreases s.len(),
{
    if s.len() == 0 {
        s
    } else if s.last() == c {
        Seq::empty()
    } else {
        after_last(s.drop_last(), c).push(s.last())
    }
}

/// Whether `p` occurs in `s` as a contiguous substring.
pub open spec fn contains_seq(s: Seq<char>, p: Seq<char>) -> bool {
    exists|i: int| 0 <= i && i + p.len() <= s.len() && #[trigger] s.subrange(i, i + p.len() as int)
        == p
}

/// The code point of `c`, with an ASCII capital letter folded to its small
/// counterpart.
pub open spec fn fold32(c: char) -> u32 {
    if 65 <= c as u32 <= 90 {
        (c as u32 + 32) as u32
    } else {
        c as u32
    }
}

/// Equality of two character sequences up to ASCII case.
pub open spec fn eq_ignore_ascii_case(a: Seq<char>, b: Seq<char>) -> bool {
    a.len() == b.len() && forall|i: int| 0 <= i < a.len() ==> fold32(a[i]) == fold32(b[i])
}

proof fn lemma_trim_dots_at(s: Seq<char>, i: int)
    requires
        0 <= i <= s.len(),
        forall|j: int| 0 <= j < i ==> s[j] == '.',
        i == s.len() || s[i] != '.',
    ensures
        trim_dots(s) == s.subrange(i, s.len() as int),
    decreases i,
{
    if i == 0 {
        assert(s.subrange(0, s.len() as int) =~= s);
    } else {
        let t = s.subrange(1, s.len() as int);
        lemma_trim_dots_at(t, i - 1);
        assert(t.subrange(i - 1, t.len() as int) =~= s.subrange(i, s.len() as int));
    }
}

/// The filter-normalization step that strips leading dots: `".png"` and
/// `"png"` trim to the same sequence.
pub proof fn lemma_trim_dots_drops_leading_dot(s: Seq<char>)
    ensures
        trim_dots(seq!['.'] + s) == trim_dots(s),
{
    let t = seq!['.'] + s;
    assert(t[0] == '.');
    assert(t.subrange(1, t.len() as int) =~= s);
}

proof fn lemma_after_last_none(s: Seq<char>, c: char)
    requires
        !has_char(s, c),
    ensures
        after_last(s, c) == s,
    decreases s.len(),
{
    if s.len() > 0 {
        assert(s.last() != c) by {
            assert(s[s.len() - 1] == s.last());
        }
        assert(!has_char(s.drop_last(), c)) by {
            assert(forall|i: int|
                0 <= i < s.drop_last().len() ==> s.drop_last()[i] == s[i] && s[i] != c);
        }
        lemma_after_last_none(s.drop_last(), c);
        assert(s.drop_last().push(s.last()) =~= s);
    }
}

proof fn lemma_after_last_at(s: Seq<char>, c: char, k: int)
    requires
        0 <= k < s.len(),
        s[k] == c,
        forall|j: int| k < j < s.len() ==> s[j] != c,
    ensures
        after_last(s, c) == s.subrange(k + 1, s.len() as int),
    decreases s.len(),
{
    if k == s.len() - 1 {
        assert(s.last() == c);
        assert(s.subrange(k + 1, s.len() as int) =~= Seq::<char>::empty());
    } else {
        assert(s.last() != c);
        let t = s.drop_last();
        assert(t[k] == c);
        lemma_after_last_at(t, c, k);
        assert(t.subrange(k + 1, t.len() as int).push(s.last()) =~= s.subrange(
            k + 1,
            s.len() as int,
        ));
    }
}

/// `s` with its leading dots removed.
pub fn trim_leading_dots(s: &str) -> (r: &str)
    ensures
        r@ == trim_dots(s@),
{
    let n = s.unicode_len();
    let mut i: usize = 0;
    while i < n && s.get_char(i) == '.'
        invariant
            0 <= i <= n,
            n == s@.len(),
            forall|j: int| 0 <= j < i ==> s@[j] == '.',
        decreases n - i,
    {
        i = i + 1;
    }
    proof {
        lemma_trim_dots_at(s@, i as int);
    }
    s.substring_char(i, n)
}

/// The suffix of `s` after the last occurrence of `c`, and whether `c`
/// occurs at all.
pub fn suffix_after_last<'a>(s: &'a str, c: char) -> (r: (bool, &'a str))
    ensures
        r.0 == has_char(s@, c),
        r.1@ == after_last(s@, c),
{
    let n = s.unicode_len();
    let mut i: usize = n;
    while i > 0
        invariant
            0 <= i <= n,
            n == s@.len(),
            forall|j: int| i <= j < n ==> s@[j] != c,
        decreases i,
    {
        if s.get_char(i - 1) == c {
            proof {
                lemma_after_last_at(s@, c, i - 1);
            }
            return (true, s.substring_char(i, n));
        }
        i = i - 1;
    }
    proof {
        lemma_after_last_none(s@, c);
    }
    (false, s)
}

/// Whether `p` occurs in `s` as a contiguous substring.
pub fn contains_str(s: &str, p: &str) -> (r: bool)
    ensures
        r == contains_seq(s@, p@),
{
    let n = s.unicode_len();
    let m = p.unicode_len();
    if m > n {
        return false;
    }
    if m == 0 {
        proof {
            assert(s@.subrange(0, 0 + p@.len() as int) =~= p@);
            assert(contains_seq(s@, p@));
        }
        return true;
    }
    let mut i: usize = 0;
    while i <= n - m
        invariant
            0 <= i <= n - m + 1,
            0 < m <= n,
            n == s@.len(),
            m == p@.len(),
            forall|k: int| 0 <= k < i ==> #[trigger] s@.subrange(k, k + m as int) != p@,
        decreases n - m - i + 1,
    {
        let piece = s.substring_char(i, i + m);
        if strs_equal(piece, p) {
            return true;
        }
        i = i + 1;
    }
    proof {
        assert(forall|k: int| 0 <= k && k + m <= n ==> #[trigger] s@.subrange(k, k + m as int)
            != p@);
    }
    false
}

/// Whether `a` and `b` hold the same characters.
pub fn strs_equal(a: &str, b: &str) -> (r: bool)
    ensures
        r == (a@ == b@),
{
    let n = a.unicode_len();
    let m = b.unicode_len();
    if n != m {
        return false;
    }
    let mut i: usize = 0;
    while i < n
        invariant
            0 <= i <= n,
            n == a@.len(),
            n == b@.len(),
            forall|j: int| 0 <= j < i ==> a@[j] == b@[j],
        decreases n - i,
    {
        if a.get_char(i) != b.get_char(i) {
            return false;
        }
        i = i + 1;
    }
    proof {
        assert(a@ =~= b@);
    }
    true
}

/// Whether `a` and `b` are equal up to ASCII case.
pub fn strs_equal_ignore_ascii_case(a: &str, b: &str) -> (r: bool)
    ensures
        r == eq_ignore_ascii_case(a@, b@),
{
    let n = a.unicode_len();
    let m = b.unicode_len();
    if n != m {
        return false;
    }
    let mut i: usize = 0;
    while i < n
        invariant
            0 <= i <= n,
            n == a@.len(),
            n == b@.len(),
            forall|j: int| 0 <= j < i ==> fold32(a@[j]) == fold32(b@[j]),
        decreases n - i,
    {
        let x = a.get_char(i) as u32;
        let y = b.get_char(i) as u32;
        let xf = if 65 <= x && x <= 90 {
            x + 32
        } else {
            x
        };
        let yf = if 65 <= y && y <= 90 {
            y + 32
        } else {
            y
        };
        if xf != yf {
            return false;
        }
        i = i + 1;
    }
    true
}

} // verus!
