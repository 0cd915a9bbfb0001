//! Character-level string helpers shared by the codec, the dispatcher and
//! the view helpers.

use vstd::prelude::*;
use vstd::string::*;

verus! {

/// Appends one character to a string.
///
/// Relies on `String::push`: appends the given `char` to the end of this
/// `String`.
#[verifier::external_body]
pub fn push_char(s: &mut String, c: char)
    ensures
        final(s)@ == old(s)@.push(c),
{
    s.push(c);
}

/// Character-for-character string equality.
pub fn str_eq(a: &str, b: &str) -> (r: bool)
    ensures
        r == (a@ == b@),
{
    let alen = a.unicode_len();
    let blen = b.unicode_len();
    if alen != blen {
        proof {
            assert(a@.len() != b@.len());
        }
        return false;
    }
    let mut i: usize = 0;
    while i < alen
        invariant
            alen == a@.len(),
            blen == b@.len(),
            alen == blen,
            i <= alen,
            forall|j: int| 0 <= j < i ==> a@[j] == b@[j],
        decreases alen - i,
    {
        if a.get_char(i) != b.get_char(i) {
            return false;
        }
        i += 1;
    }
    proof {
        assert(a@ =~= b@);
    }
    true
}

/// Position of the first occurrence of `c`, if any.
pub fn find_char(s: &str, c: char) -> (r: Option<usize>)
    ensures
        match r {
            Some(i) => i < s@.len() && s@[i as int] == c && forall|j: int|
                0 <= j < i ==> s@[j] != c,
            None => forall|j: int| 0 <= j < s@.len() ==> s@[j] != c,
        },
{
    let n = s.unicode_len();
    let mut i: usize = 0;
    while i < n
        invariant
            n == s@.len(),
            i <= n,
            forall|j: int| 0 <= j < i ==> s@[j] != c,
        decreases n - i,
    {
        if s.get_char(i) == c {
            return Some(i);
        }
        i += 1;
    }
    None
}

/// Whether `pat` occurs as a contiguous substring of `s`.
pub open spec fn spec_contains(s: Seq<char>, pat: Seq<char>) -> bool {
    exists|i: int| 0 <= i && i + pat.len() <= s.len() && #[trigger] s.subrange(i, i + pat.len())
        == pat
}

/// Substring search; clients match the authentication replies this way.
pub fn contains_str(s: &str, pat: &str) -> (r: bool)
    ensures
        r == spec_contains(s@, pat@),
{
    let n = s.unicode_len();
    let m = pat.unicode_len();
    if m > n {
        proof {
            assert(!spec_contains(s@, pat@));
        }
        return false;
    }
    if m == 0 {
        proof {
            assert(s@.subrange(0, 0 + pat@.len() as int) =~= pat@);
        }
        return true;
    }
    let mut i: usize = 0;
    while i <= n - m
        invariant
            n == s@.len(),
            m == pat@.len(),
            0 < m <= n,
            i <= n - m + 1,
            forall|k: int| 0 <= k < i ==> #[trigger] s@.subrange(k, k + pat@.len()) != pat@,
        decreases n - m + 1 - i,
    {
        let piece = s.substring_char(i, i + m);
        if str_eq(piece, pat) {
            proof {
                assert(s@.subrange(i as int, i + pat@.len()) == pat@);
            }
            return true;
        }
        i += 1;
    }
    proof {
        assert(!spec_contains(s@, pat@));
    }
    false
}

/// Copies a string; the result has the same characters.
pub fn clone_str(s: &str) -> (r: String)
    ensures
        r@ == s@,
{
    String::from_str(s)
}

/// Index of the first occurrence of `c`, or `-1` when there is none.
pub open spec fn first_index(s: Seq<char>, c: char) -> int {
    if exists|i: int| 0 <= i < s.len() && s[i] == c && (forall|j: int| 0 <= j < i ==> s[j] != c) {
        choose|i: int| 0 <= i < s.len() && s[i] == c && (forall|j: int| 0 <= j < i ==> s[j] != c)
    } else {
        -1
    }
}

/// A position that holds `c` with none before it is the position that
/// `first_index` denotes.
pub proof fn lemma_first_index_at(s: Seq<char>, c: char, i: int)
    requires
        0 <= i < s.len(),
        s[i] == c,
        forall|j: int| 0 <= j < i ==> s[j] != c,
    ensures
        first_index(s, c) == i,
{
    assert(0 <= i < s.len() && s[i] == c && (forall|j: int| 0 <= j < i ==> s[j] != c));
    let w = choose|k: int|
        0 <= k < s.len() && s[k] == c && (forall|j: int| 0 <= j < k ==> s[j] != c);
    if w < i {
        assert(s[w] != c);
    } else if i < w {
        assert(s[i] != c);
    }
}

/// Without an occurrence there is no first occurrence.
pub proof fn lemma_first_index_none(s: Seq<char>, c: char)
    requires
        forall|j: int| 0 <= j < s.len() ==> s[j] != c,
    ensures
        first_index(s, c) == -1,
{
    if exists|i: int| 0 <= i < s.len() && s[i] == c && (forall|j: int| 0 <= j < i ==> s[j] != c) {
        let w = choose|i: int|
            0 <= i < s.len() && s[i] == c && (forall|j: int| 0 <= j < i ==> s[j] != c);
        assert(s[w] != c);
    }
}

/// A blank character, for trimming.
pub open spec fn is_blank(c: char) -> bool {
    c == ' ' || c == '\t' || c == '\r' || c == '\n'
}

pub open spec fn trim_front(s: Seq<char>) -> Seq<char>
    decreases s.len(),
{
    if s.len() > 0 && is_blank(s[0]) {
        trim_front(s.drop_first())
    } else {
        s
    }
}

pub open spec fn trim_back(s: Seq<char>) -> Seq<char>
    decreases s.len(),
{
    if s.len() > 0 && is_blank(s.last()) {
        trim_back(s.drop_last())
    } else {
        s
    }
}

/// The string without leading and trailing blanks.
pub open spec fn trimmed(s: Seq<char>) -> Seq<char> {
    trim_back(trim_front(s))
}

/// Strips leading and trailing blanks.
pub fn trim_str(s: &str) -> (r: String)
    ensures
        r@ == trimmed(s@),
{
    let n = s.unicode_len();
    let mut lo: usize = 0;
    proof {
        assert(s@.subrange(0, n as int) =~= s@);
    }
    while lo < n
        invariant
            n == s@.len(),
            lo <= n,
            trim_front(s@) == trim_front(s@.subrange(lo as int, n as int)),
        ensures
            lo <= n,
            trim_front(s@) == trim_front(s@.subrange(lo as int, n as int)),
            lo == n || !is_blank(s@[lo as int]),
        decreases n - lo,
    {
        let c = s.get_char(lo);
        if !(c == ' ' || c == '\t' || c == '\r' || c == '\n') {
            break ;
        }
        proof {
            let sub = s@.subrange(lo as int, n as int);
            assert(sub[0] == s@[lo as int]);
            assert(sub.drop_first() =~= s@.subrange(lo as int + 1, n as int));
        }
        lo += 1;
    }
    proof {
        let sub = s@.subrange(lo as int, n as int);
        if lo < n {
            assert(sub[0] == s@[lo as int]);
        }
        assert(trim_front(sub) == sub);
    }
    let mut hi: usize = n;
    while hi > lo
        invariant
            n == s@.len(),
            lo <= hi <= n,
            trim_back(s@.subrange(lo as int, n as int)) == trim_back(
                s@.subrange(lo as int, hi as int),
            ),
        ensures
            lo <= hi <= n,
            trim_back(s@.subrange(lo as int, n as int)) == trim_back(
                s@.subrange(lo as int, hi as int),
            ),
            hi == lo || !is_blank(s@[hi - 1]),
        decreases hi,
    {
        let c = s.get_char(hi - 1);
        if !(c == ' ' || c == '\t' || c == '\r' || c == '\n') {
            break ;
        }
        proof {
            let sub = s@.subrange(lo as int, hi as int);
            assert(sub.last() == s@[hi - 1]);
            assert(sub.drop_last() =~= s@.subrange(lo as int, hi - 1));
        }
        hi -= 1;
    }
    proof {
        let sub = s@.subrange(lo as int, hi as int);
        if hi > lo {
            assert(sub.last() == s@[hi - 1]);
        }
        assert(trim_back(sub) == sub);
    }
    clone_str(s.substring_char(lo, hi))
}

} // verus!
