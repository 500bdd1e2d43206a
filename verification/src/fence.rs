//! Extraction of the first fenced code sample from a tab item: a
//! triple-backtick fence, a language tag on the fence line, the verbatim
//! code up to the next fence that follows a line break, and nothing after.

use vstd::prelude::*;

verus! {

use crate::text::{lit, is_match_at, find_from, trim_when, lemma_trim_front_when,
    lemma_trim_back_when};

/// Whitespace trimmed from a language tag (line breaks cannot occur in
/// it). Only ASCII blanks are trimmed: non-ASCII whitespace around a
/// language tag stays part of the tag.
pub open spec fn lang_ws(c: u8) -> bool {
    c == ' ' as u8 || c == '\t' as u8 || c == 11 || c == 12
}

/// A byte that ends the language-tag run on the fence line.
pub open spec fn is_run_end(c: u8) -> bool {
    c == '\r' as u8 || c == '\n' as u8 || c == '`' as u8
}

/// The first position at or after `q` that ends the language-tag run.
pub open spec fn lang_run_end(s: Seq<u8>, q: int) -> int
    decreases s.len() - q,
{
    if 0 <= q < s.len() && !is_run_end(s[q]) {
        lang_run_end(s, q + 1)
    } else {
        q
    }
}

/// Where the code starts when the language run at `e` is followed by a
/// line break: just past a bare newline or a carriage-return pair.
pub open spec fn head_code_start(s: Seq<u8>, e: int) -> Option<int> {
    if 0 <= e < s.len() && s[e] == '\n' as u8 {
        Some(e + 1)
    } else if 0 <= e && e + 1 < s.len() && s[e] == '\r' as u8 && s[e + 1] == '\n' as u8 {
        Some(e + 2)
    } else {
        None
    }
}

/// Position `x` ends the code: a line break followed by a closing fence.
pub open spec fn code_end_at(s: Seq<u8>, x: int) -> bool {
    (0 <= x < s.len() && s[x] == '\n' as u8 && is_match_at(s, lit("```"), x + 1)) || (0 <= x && x
        + 1 < s.len() && s[x] == '\r' as u8 && s[x + 1] == '\n' as u8 && is_match_at(
        s,
        lit("```"),
        x + 2,
    ))
}

/// The first position at or after `x` that ends the code, if any.
pub open spec fn find_code_end(s: Seq<u8>, x: int) -> Option<int>
    decreases s.len() - x,
{
    if !(0 <= x < s.len()) {
        None
    } else if code_end_at(s, x) {
        Some(x)
    } else {
        find_code_end(s, x + 1)
    }
}

/// The raw language tag and verbatim code of a fence starting exactly at
/// `p`, if the fence line and a closing fence are well formed.
pub open spec fn fence_match_at(s: Seq<u8>, p: int) -> Option<(Seq<u8>, Seq<u8>)> {
    if !is_match_at(s, lit("```"), p) {
        None
    } else {
        let e = lang_run_end(s, p + 3);
        match head_code_start(s, e) {
            None => None,
            Some(cs) => match find_code_end(s, cs) {
                None => None,
                Some(x) => Some((s.subrange(p + 3, e), s.subrange(cs, x))),
            },
        }
    }
}

/// The first well-formed fence at or after `p`.
pub open spec fn fence_from(s: Seq<u8>, p: int) -> Option<(Seq<u8>, Seq<u8>)>
    decreases s.len() + 1 - p,
{
    if p < 0 || p + 3 > s.len() {
        None
    } else if fence_match_at(s, p) is Some {
        fence_match_at(s, p)
    } else {
        fence_from(s, p + 1)
    }
}

/// The language tag as emitted: trimmed, and a fixed fallback when empty.
pub open spec fn normalize_lang(l: Seq<u8>) -> Seq<u8> {
    let t = trim_when(l, |c: u8| lang_ws(c));
    if t.len() == 0 {
        lit("text")
    } else {
        t
    }
}

/// The first fenced code sample of an item: its normalized language tag
/// and its verbatim content.
pub open spec fn fence_result(s: Seq<u8>) -> Option<(Seq<u8>, Seq<u8>)> {
    match fence_from(s, 0) {
        None => None,
        Some(lc) => Some((normalize_lang(lc.0), lc.1)),
    }
}

/// Positions that do not start a fence contribute no match.
proof fn lemma_fence_from_skip(s: Seq<u8>, a: int, b: int)
    requires
        0 <= a <= b,
        forall|j: int| a <= j < b ==> !is_match_at(s, lit("```"), j),
    ensures
        fence_from(s, a) == fence_from(s, b),
    decreases b - a,
{
    if a < b {
        lemma_fence_from_skip(s, a + 1, b);
    }
}

/// With no fence opening at or after `a`, there is no fenced block.
proof fn lemma_fence_from_none(s: Seq<u8>, a: int)
    requires
        0 <= a,
        forall|j: int| a <= j ==> !is_match_at(s, lit("```"), j),
    ensures
        fence_from(s, a) is None,
    decreases s.len() + 1 - a,
{
    if !(a + 3 > s.len()) {
        lemma_fence_from_none(s, a + 1);
    }
}

/// Whether the byte is trimmed from a language tag.
fn lang_ws_byte(c: u8) -> (r: bool)
    ensures
        r == lang_ws(c),
{
    c == ' ' as u8 || c == '\t' as u8 || c == 11 || c == 12
}

/// Advances past the language-tag run.
fn lang_run_end_idx(s: &[u8], q: usize) -> (r: usize)
    requires
        q <= s@.len(),
    ensures
        r as int == lang_run_end(s@, q as int),
        q <= r <= s@.len(),
{
    let n = s.len();
    let mut e: usize = q;
    while e < n && s[e] != '\r' as u8 && s[e] != '\n' as u8 && s[e] != '`' as u8
        invariant
            q <= e <= n == s@.len(),
            lang_run_end(s@, q as int) == lang_run_end(s@, e as int),
        decreases n - e,
    {
        e += 1;
    }
    e
}

/// Finds the first code-ending line break followed by a fence.
fn find_code_end_idx(s: &[u8], from: usize) -> (r: Option<usize>)
    requires
        from <= s@.len(),
    ensures
        (match r {
            Some(x) => find_code_end(s@, from as int) == Some(x as int) && from <= x < s@.len(),
            None => find_code_end(s@, from as int) is None,
        }),
{
    proof {
        reveal_strlit("```");
    }
    let n = s.len();
    let bt = crate::text::lit_vec("```");
    let mut x: usize = from;
    while x < n
        invariant
            from <= x <= n == s@.len(),
            bt@ == lit("```"),
            find_code_end(s@, from as int) == find_code_end(s@, x as int),
        decreases n - x,
    {
        let c = s[x];
        if c == '\n' as u8 && n - x >= 4 && crate::text::match_at(s, bt.as_slice(), x + 1) {
            return Some(x);
        }
        if c == '\r' as u8 && n - x >= 5 && s[x + 1] == '\n' as u8 && crate::text::match_at(
            s,
            bt.as_slice(),
            x + 2,
        ) {
            return Some(x);
        }
        proof {
            assert(!code_end_at(s@, x as int));
        }
        x += 1;
    }
    None
}

/// Extracts the first fenced code block of an item's content: the trimmed
/// language tag (with its fallback) and the verbatim code, exactly as
/// `fence_result` describes, or nothing when the item holds no
/// well-formed fence.
pub fn extract_first_fenced_code_block(content: &[u8]) -> (r: Option<(Vec<u8>, Vec<u8>)>)
    ensures
        (match r {
            Some(lc) => fence_result(content@) == Some((lc.0@, lc.1@)),
            None => fence_result(content@) is None,
        }),
{
    proof {
        reveal_strlit("```");
    }
    let n = content.len();
    let bt = crate::text::lit_vec("```");
    let mut p: usize = 0;
    loop
        invariant
            0 <= p <= n + 1,
            n == content@.len(),
            bt@ == lit("```"),
            fence_from(content@, 0) == fence_from(content@, p as int),
        decreases n + 1 - p,
    {
        match crate::text::find_sub(content, bt.as_slice(), p) {
            None => {
                proof {
                    crate::text::lemma_find_from(content@, lit("```"), p as int);
                    lemma_fence_from_none(content@, p as int);
                }
                return None;
            },
            Some(k) => {
                proof {
                    crate::text::lemma_find_from(content@, lit("```"), p as int);
                    lemma_fence_from_skip(content@, p as int, k as int);
                }
                let e = lang_run_end_idx(content, k + 3);
                let mut cs_opt: Option<usize> = None;
                if e < n && content[e] == '\n' as u8 {
                    cs_opt = Some(e + 1);
                } else if n - e >= 2 && content[e] == '\r' as u8 && content[e + 1] == '\n' as u8 {
                    cs_opt = Some(e + 2);
                }
                match cs_opt {
                    None => {
                        proof {
                            assert(head_code_start(content@, e as int) is None);
                            assert(fence_match_at(content@, k as int) is None);
                        }
                        p = k + 1;
                    },
                    Some(cs) => {
                        proof {
                            assert(head_code_start(content@, e as int) == Some(cs as int));
                        }
                        match find_code_end_idx(content, cs) {
                            None => {
                                proof {
                                    assert(fence_match_at(content@, k as int) is None);
                                }
                                p = k + 1;
                            },
                            Some(x) => {
                                proof {
                                    assert(fence_match_at(content@, k as int) == Some(
                                        (
                                            content@.subrange(k + 3, e as int),
                                            content@.subrange(cs as int, x as int),
                                        ),
                                    ));
                                }
                                let mut code: Vec<u8> = Vec::new();
                                crate::text::append_range(&mut code, content, cs, x);
                                let mut lo: usize = k + 3;
                                let mut hi: usize = e;
                                while lo < hi && lang_ws_byte(content[lo])
                                    invariant
                                        k + 3 <= lo <= hi == e <= n == content@.len(),
                                        forall|j: int| k + 3 <= j < lo ==> lang_ws(content@[j]),
                                    decreases hi - lo,
                                {
                                    lo += 1;
                                }
                                while hi > lo && lang_ws_byte(content[hi - 1])
                                    invariant
                                        k + 3 <= lo <= hi <= e <= n == content@.len(),
                                        forall|j: int| k + 3 <= j < lo ==> lang_ws(content@[j]),
                                        forall|j: int| hi <= j < e ==> lang_ws(content@[j]),
                                    decreases hi,
                                {
                                    hi -= 1;
                                }
                                proof {
                                    let raw = content@.subrange(k + 3, e as int);
                                    let pred = (|c: u8| lang_ws(c));
                                    assert forall|j: int| 0 <= j < lo - (k + 3) implies pred(
                                        raw[j],
                                    ) by {
                                        assert(raw[j] == content@[j + k + 3]);
                                    }
                                    assert(lo - (k + 3) == raw.len() || !pred(
                                        raw[lo - (k + 3)],
                                    ));
                                    lemma_trim_front_when(raw, pred, lo - (k + 3));
                                    let mid = raw.skip(lo - (k + 3));
                                    assert forall|j: int| hi - lo <= j < mid.len() implies pred(
                                        mid[j],
                                    ) by {
                                        assert(mid[j] == content@[j + lo]);
                                    }
                                    if hi - lo > 0 {
                                        assert(mid[hi - lo - 1] == content@[hi - 1]);
                                    }
                                    lemma_trim_back_when(mid, pred, hi - lo as int);
                                    assert(trim_when(raw, pred) =~= content@.subrange(
                                        lo as int,
                                        hi as int,
                                    ));
                                }
                                let lang: Vec<u8> = if lo == hi {
                                    crate::text::lit_vec("text")
                                } else {
                                    let mut l: Vec<u8> = Vec::new();
                                    crate::text::append_range(&mut l, content, lo, hi);
                                    l
                                };
                                return Some((lang, code));
                            },
                        }
                    },
                }
            },
        }
    }
}

} // verus!
