//! Byte-level text primitives: literal bytes, substring search, and
//! appending of byte ranges. Every other module states its contracts over
//! these spec functions.

use vstd::prelude::*;

verus! {

use vstd::std_specs::iter::IteratorSpec;

/// The bytes of an ASCII string literal, viewed as a sequence of `u8`.
/// (Each character is truncated to its low byte; the crate only applies
/// this to ASCII literals, where the truncation is the identity.)
pub open spec fn lit(s: &str) -> Seq<u8> {
    Seq::new(s@.len(), |i: int| s@[i] as u8)
}

/// Turns a string literal into the byte vector that `lit` describes.
pub fn lit_vec(s: &str) -> (r: Vec<u8>)
    ensures
        r@ == lit(s),
{
    broadcast use vstd::string::group_string_axioms;

    let mut r: Vec<u8> = Vec::new();
    let mut it = s.chars();
    loop
        invariant
            it.decrease() is Some,
            r@.len() + it.remaining().len() == s@.len(),
            it.remaining() =~= s@.skip(r@.len() as int),
            r@ =~= lit(s).subrange(0, r@.len() as int),
        decreases it.decrease()->0,
    {
        match it.next() {
            Some(c) => {
                r.push(c as u8);
            },
            None => {
                break ;
            },
        }
    }
    proof {
        assert(r@ =~= lit(s));
    }
    r
}

/// The pattern `pat` occurs in `s` starting at position `i`.
pub open spec fn is_match_at(s: Seq<u8>, pat: Seq<u8>, i: int) -> bool {
    &&& 0 <= i
    &&& i + pat.len() <= s.len()
    &&& s.subrange(i, i + pat.len() as int) == pat
}

/// The position of the first occurrence of `pat` in `s` at or after `from`.
pub open spec fn find_from(s: Seq<u8>, pat: Seq<u8>, from: int) -> Option<int>
    decreases s.len() + 1 - from,
{
    if from < 0 || from + pat.len() > s.len() {
        None
    } else if is_match_at(s, pat, from) {
        Some(from)
    } else {
        find_from(s, pat, from + 1)
    }
}

/// `find_from` returns the first match at or after `from`, or says that
/// there is none.
pub proof fn lemma_find_from(s: Seq<u8>, pat: Seq<u8>, from: int)
    requires
        0 <= from,
    ensures
        (match find_from(s, pat, from) {
            Some(i) => from <= i && is_match_at(s, pat, i) && (forall|j: int|
                from <= j < i ==> !is_match_at(s, pat, j)),
            None => forall|j: int| from <= j ==> !is_match_at(s, pat, j),
        }),
    decreases s.len() + 1 - from,
{
    if from + pat.len() > s.len() {
        assert forall|j: int| from <= j implies !is_match_at(s, pat, j) by {
            if is_match_at(s, pat, j) {
                assert(j + pat.len() <= s.len());
            }
        }
    } else if is_match_at(s, pat, from) {
    } else {
        lemma_find_from(s, pat, from + 1);
    }
}

/// Compares `pat` against the bytes of `s` starting at `i`.
pub fn match_at(s: &[u8], pat: &[u8], i: usize) -> (r: bool)
    requires
        i + pat@.len() <= s@.len(),
    ensures
        r == is_match_at(s@, pat@, i as int),
{
    let sl = s.len();
    let pl = pat.len();
    let mut k: usize = 0;
    while k < pl
        invariant
            k <= pl == pat@.len(),
            sl == s@.len(),
            i + pat@.len() <= s@.len(),
            forall|t: int| 0 <= t < k ==> s@[i + t] == pat@[t],
        decreases pl - k,
    {
        if s[i + k] != pat[k] {
            proof {
                assert(s@.subrange(i as int, i + pat@.len() as int)[k as int] == s@[i + k]);
            }
            return false;
        }
        k += 1;
    }
    proof {
        assert(s@.subrange(i as int, i + pat@.len() as int) =~= pat@);
    }
    true
}

/// Finds the first occurrence of `pat` in `s` at or after `from`.
pub fn find_sub(s: &[u8], pat: &[u8], from: usize) -> (r: Option<usize>)
    ensures
        find_from(s@, pat@, from as int) == (match r {
            Some(i) => Some(i as int),
            None => None::<int>,
        }),
{
    if pat.len() > s.len() || from > s.len() - pat.len() {
        return None;
    }
    let end = s.len() - pat.len();
    let mut i: usize = from;
    while i <= end
        invariant
            from <= i <= end + 1,
            end + pat@.len() == s@.len(),
            find_from(s@, pat@, from as int) == find_from(s@, pat@, i as int),
        decreases end + 1 - i,
    {
        if match_at(s, pat, i) {
            return Some(i);
        }
        if i == end {
            proof {
                assert(find_from(s@, pat@, i as int) == find_from(s@, pat@, i + 1));
                assert(find_from(s@, pat@, i + 1) is None);
            }
            return None;
        }
        i += 1;
    }
    None
}

/// Removes leading bytes satisfying `p`.
pub open spec fn trim_front_when(s: Seq<u8>, p: spec_fn(u8) -> bool) -> Seq<u8>
    decreases s.len(),
{
    if s.len() > 0 && p(s[0]) {
        trim_front_when(s.skip(1), p)
    } else {
        s
    }
}

/// Removes trailing bytes satisfying `p`.
pub open spec fn trim_back_when(s: Seq<u8>, p: spec_fn(u8) -> bool) -> Seq<u8>
    decreases s.len(),
{
    if s.len() > 0 && p(s.last()) {
        trim_back_when(s.drop_last(), p)
    } else {
        s
    }
}

/// Both ends trimmed of bytes satisfying `p`.
pub open spec fn trim_when(s: Seq<u8>, p: spec_fn(u8) -> bool) -> Seq<u8> {
    trim_back_when(trim_front_when(s, p), p)
}

/// If the first `k` bytes satisfy `p` and the byte after them (if any)
/// does not, trimming the front drops exactly those `k` bytes.
pub proof fn lemma_trim_front_when(s: Seq<u8>, p: spec_fn(u8) -> bool, k: int)
    requires
        0 <= k <= s.len(),
        forall|i: int| 0 <= i < k ==> p(s[i]),
        k == s.len() || !p(s[k]),
    ensures
        trim_front_when(s, p) == s.skip(k),
    decreases k,
{
    if k == 0 {
        assert(s.skip(0) =~= s);
    } else {
        lemma_trim_front_when(s.skip(1), p, k - 1);
        assert(s.skip(1).skip(k - 1) =~= s.skip(k));
    }
}

/// If the bytes from `m` on satisfy `p` and the byte before them (if any)
/// does not, trimming the back keeps exactly the first `m` bytes.
pub proof fn lemma_trim_back_when(s: Seq<u8>, p: spec_fn(u8) -> bool, m: int)
    requires
        0 <= m <= s.len(),
        forall|i: int| m <= i < s.len() ==> p(s[i]),
        m == 0 || !p(s[m - 1]),
    ensures
        trim_back_when(s, p) == s.take(m),
    decreases s.len() - m,
{
    if m == s.len() {
        assert(s.take(m) =~= s);
    } else {
        lemma_trim_back_when(s.drop_last(), p, m);
        assert(s.drop_last().take(m) =~= s.take(m));
    }
}

/// Appends a whole slice to `out`.
pub fn append_slice(out: &mut Vec<u8>, s: &[u8])
    ensures
        final(out)@ == old(out)@ + s@,
{
    out.extend_from_slice(s);
}

/// Appends the bytes of `s` between `a` and `b` to `out`.
pub fn append_range(out: &mut Vec<u8>, s: &[u8], a: usize, b: usize)
    requires
        a <= b <= s@.len(),
    ensures
        final(out)@ == old(out)@ + s@.subrange(a as int, b as int),
{
    let part = vstd::slice::slice_subrange(s, a, b);
    out.extend_from_slice(part);
}

/// Appends the bytes of a string literal to `out`.
pub fn append_lit(out: &mut Vec<u8>, s: &str)
    ensures
        final(out)@ == old(out)@ + lit(s),
{
    let v = lit_vec(s);
    out.extend_from_slice(v.as_slice());
}

} // verus!
