//! Sanitized identifiers: lowercase ASCII alphanumerics with every run of
//! other characters collapsed to one separator, separators trimmed from
//! both ends, and a fixed fallback when nothing remains.

use vstd::prelude::*;

verus! {

use crate::text::lit;

/// The byte is an ASCII letter or digit.
pub open spec fn is_alnum(c: u8) -> bool {
    ('a' as u8 <= c && c <= 'z' as u8) || ('A' as u8 <= c && c <= 'Z' as u8) || ('0' as u8 <= c
        && c <= '9' as u8)
}

/// The byte with an ASCII uppercase letter folded to lowercase.
pub open spec fn to_lower(c: u8) -> u8 {
    if 'A' as u8 <= c && c <= 'Z' as u8 {
        (c + 32) as u8
    } else {
        c
    }
}

/// Lowercases alphanumerics and collapses each run of other characters
/// to a single separator.
pub open spec fn collapse(s: Seq<u8>) -> Seq<u8>
    decreases s.len(),
{
    if s.len() == 0 {
        Seq::empty()
    } else {
        let rest = collapse(s.drop_last());
        let c = s.last();
        if is_alnum(c) {
            rest.push(to_lower(c))
        } else if rest.len() > 0 && rest.last() == '-' as u8 {
            rest
        } else {
            rest.push('-' as u8)
        }
    }
}

/// Removes leading separators.
pub open spec fn trim_front(s: Seq<u8>) -> Seq<u8>
    decreases s.len(),
{
    if s.len() > 0 && s[0] == '-' as u8 {
        trim_front(s.skip(1))
    } else {
        s
    }
}

/// Removes trailing separators.
pub open spec fn trim_back(s: Seq<u8>) -> Seq<u8>
    decreases s.len(),
{
    if s.len() > 0 && s.last() == '-' as u8 {
        trim_back(s.drop_last())
    } else {
        s
    }
}

/// The sanitized form of an arbitrary string: collapsed, trimmed, and a
/// fixed non-empty fallback where the result would be empty.
pub open spec fn sanitize_spec(s: Seq<u8>) -> Seq<u8> {
    let t = trim_back(trim_front(collapse(s)));
    if t.len() == 0 {
        lit("language-tab")
    } else {
        t
    }
}

/// If the first `k` bytes are separators and the byte after them (if any)
/// is not, trimming the front drops exactly those `k` bytes.
proof fn lemma_trim_front_skip(s: Seq<u8>, k: int)
    requires
        0 <= k <= s.len(),
        forall|i: int| 0 <= i < k ==> s[i] == '-' as u8,
        k == s.len() || s[k] != '-' as u8,
    ensures
        trim_front(s) == s.skip(k),
    decreases k,
{
    if k == 0 {
        assert(s.skip(0) =~= s);
    } else {
        lemma_trim_front_skip(s.skip(1), k - 1);
        assert(s.skip(1).skip(k - 1) =~= s.skip(k));
    }
}

/// If the last bytes from `m` on are separators and the byte before them
/// (if any) is not, trimming the back keeps exactly the first `m` bytes.
proof fn lemma_trim_back_take(s: Seq<u8>, m: int)
    requires
        0 <= m <= s.len(),
        forall|i: int| m <= i < s.len() ==> s[i] == '-' as u8,
        m == 0 || s[m - 1] != '-' as u8,
    ensures
        trim_back(s) == s.take(m),
    decreases s.len() - m,
{
    if m == s.len() {
        assert(s.take(m) =~= s);
    } else {
        lemma_trim_back_take(s.drop_last(), m);
        assert(s.drop_last().take(m) =~= s.take(m));
    }
}

/// Sanitizes an arbitrary string into a lowercase identifier, with the
/// fixed fallback for strings that sanitize to nothing.
pub fn sanitize_identifier(raw: &[u8]) -> (r: Vec<u8>)
    ensures
        r@ == sanitize_spec(raw@),
{
    let n = raw.len();
    let mut v: Vec<u8> = Vec::new();
    let mut i: usize = 0;
    while i < n
        invariant
            i <= n == raw@.len(),
            v@ == collapse(raw@.subrange(0, i as int)),
        decreases n - i,
    {
        let c = raw[i];
        let lower = ('a' as u8 <= c && c <= 'z' as u8) || ('0' as u8 <= c && c <= '9' as u8);
        let upper = 'A' as u8 <= c && c <= 'Z' as u8;
        if upper {
            v.push(c + 32);
        } else if lower {
            v.push(c);
        } else if v.len() == 0 || v[v.len() - 1] != '-' as u8 {
            v.push('-' as u8);
        }
        proof {
            assert(raw@.subrange(0, i + 1).drop_last() =~= raw@.subrange(0, i as int));
            assert(raw@.subrange(0, i + 1).last() == raw@[i as int]);
        }
        i += 1;
    }
    proof {
        assert(raw@.subrange(0, n as int) =~= raw@);
    }
    let mut lo: usize = 0;
    let mut hi: usize = v.len();
    while lo < hi && v[lo] == '-' as u8
        invariant
            0 <= lo <= hi == v@.len(),
            forall|j: int| 0 <= j < lo ==> v@[j] == '-' as u8,
        decreases hi - lo,
    {
        lo += 1;
    }
    proof {
        lemma_trim_front_skip(v@, lo as int);
    }
    while hi > lo && v[hi - 1] == '-' as u8
        invariant
            lo <= hi <= v@.len(),
            forall|j: int| hi <= j < v@.len() ==> v@[j] == '-' as u8,
            forall|j: int| 0 <= j < lo ==> v@[j] == '-' as u8,
        decreases hi,
    {
        hi -= 1;
    }
    proof {
        assert(v@.skip(lo as int) =~= v@.subrange(lo as int, v@.len() as int));
        assert forall|j: int| hi - lo <= j < v@.skip(lo as int).len() implies v@.skip(lo as int)[j]
            == '-' as u8 by {
            assert(v@.skip(lo as int)[j] == v@[j + lo]);
        }
        lemma_trim_back_take(v@.skip(lo as int), hi - lo);
        assert(v@.skip(lo as int).take(hi - lo) =~= v@.subrange(lo as int, hi as int));
    }
    if lo == hi {
        crate::text::lit_vec("language-tab")
    } else {
        let mut out: Vec<u8> = Vec::new();
        crate::text::append_range(&mut out, v.as_slice(), lo, hi);
        out
    }
}

} // verus!
