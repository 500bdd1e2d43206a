//! Named-attribute lookup inside a tag: the first occurrence of
//! `name = "value"` (with optional whitespace around `=`, and a non-empty
//! double-quoted value) yields the value. Each attribute is resolved
//! independently, so one malformed attribute never spoils another.

use vstd::prelude::*;

verus! {

use crate::text::{lit, is_match_at, find_from};

/// ASCII whitespace accepted around the `=` of an attribute. Only ASCII
/// whitespace is recognized here: a non-ASCII whitespace character between
/// an attribute's name and its value leaves the attribute unmatched.
pub open spec fn is_ws(c: u8) -> bool {
    c == ' ' as u8 || c == '\t' as u8 || c == '\n' as u8 || c == '\r' as u8 || c == 11 || c == 12
}

/// The first position at or after `i` that does not hold whitespace.
pub open spec fn skip_ws(s: Seq<u8>, i: int) -> int
    decreases s.len() - i,
{
    if 0 <= i < s.len() && is_ws(s[i]) {
        skip_ws(s, i + 1)
    } else {
        i
    }
}

/// The value of an attribute match beginning exactly at `i`: the name,
/// optional whitespace, `=`, optional whitespace, and a double-quoted
/// value of at least one character.
pub open spec fn attr_match_at(s: Seq<u8>, name: Seq<u8>, i: int) -> Option<Seq<u8>> {
    if !is_match_at(s, name, i) {
        None
    } else {
        let p = skip_ws(s, i + name.len());
        if !(p < s.len() && s[p] == '=' as u8) {
            None
        } else {
            let q = skip_ws(s, p + 1);
            if !(q < s.len() && s[q] == '"' as u8) {
                None
            } else {
                match find_from(s, lit("\""), q + 1) {
                    None => None,
                    Some(m) => if m == q + 1 {
                        None
                    } else {
                        Some(s.subrange(q + 1, m))
                    },
                }
            }
        }
    }
}

/// The value of the first attribute match at or after `i`.
pub open spec fn attr_from(s: Seq<u8>, name: Seq<u8>, i: int) -> Option<Seq<u8>>
    decreases s.len() + 1 - i,
{
    if i < 0 || i + name.len() > s.len() {
        None
    } else if attr_match_at(s, name, i) is Some {
        attr_match_at(s, name, i)
    } else {
        attr_from(s, name, i + 1)
    }
}

/// The value of the named attribute, resolved by the first match in `s`.
pub open spec fn attr_value(s: Seq<u8>, name: Seq<u8>) -> Option<Seq<u8>> {
    attr_from(s, name, 0)
}

/// Positions where the name does not even occur contribute no match.
proof fn lemma_attr_from_skip(s: Seq<u8>, name: Seq<u8>, a: int, b: int)
    requires
        0 <= a <= b,
        forall|j: int| a <= j < b ==> !is_match_at(s, name, j),
    ensures
        attr_from(s, name, a) == attr_from(s, name, b),
    decreases b - a,
{
    if a < b {
        lemma_attr_from_skip(s, name, a + 1, b);
    }
}

/// With no occurrence of the name at or after `a`, there is no attribute.
proof fn lemma_attr_from_none(s: Seq<u8>, name: Seq<u8>, a: int)
    requires
        0 <= a,
        forall|j: int| a <= j ==> !is_match_at(s, name, j),
    ensures
        attr_from(s, name, a) is None,
    decreases s.len() + 1 - a,
{
    if !(a + name.len() > s.len()) {
        lemma_attr_from_none(s, name, a + 1);
    }
}

/// Whether the byte counts as whitespace around an attribute's `=`.
pub fn is_ws_byte(c: u8) -> (r: bool)
    ensures
        r == is_ws(c),
{
    c == ' ' as u8 || c == '\t' as u8 || c == '\n' as u8 || c == '\r' as u8 || c == 11 || c == 12
}

/// Advances `i` past whitespace.
pub fn skip_ws_idx(s: &[u8], i: usize) -> (r: usize)
    requires
        i <= s@.len(),
    ensures
        r as int == skip_ws(s@, i as int),
        i <= r <= s@.len(),
{
    let n = s.len();
    let mut j: usize = i;
    while j < n && is_ws_byte(s[j])
        invariant
            i <= j <= n == s@.len(),
            skip_ws(s@, i as int) == skip_ws(s@, j as int),
        decreases n - j,
    {
        j += 1;
    }
    j
}

/// Looks up the named attribute: the first `name = "value"` in `attrs`,
/// with a non-empty value, resolved exactly as `attr_value` describes.
pub fn parse_attribute_value(attrs: &[u8], name: &[u8]) -> (r: Option<Vec<u8>>)
    ensures
        (match r {
            Some(v) => attr_value(attrs@, name@) == Some(v@),
            None => attr_value(attrs@, name@) is None,
        }),
{
    let n = attrs.len();
    let quote = crate::text::lit_vec("\"");
    let mut i: usize = 0;
    loop
        invariant
            0 <= i <= n + 1,
            n == attrs@.len(),
            attr_from(attrs@, name@, 0) == attr_from(attrs@, name@, i as int),
        decreases n + 1 - i,
    {
        match crate::text::find_sub(attrs, name, i) {
            None => {
                proof {
                    crate::text::lemma_find_from(attrs@, name@, i as int);
                    lemma_attr_from_none(attrs@, name@, i as int);
                }
                return None;
            },
            Some(k) => {
                proof {
                    crate::text::lemma_find_from(attrs@, name@, i as int);
                    lemma_attr_from_skip(attrs@, name@, i as int, k as int);
                }
                if k == n {
                    proof {
                        assert(skip_ws(attrs@, k + name@.len()) == k as int);
                        assert(attr_match_at(attrs@, name@, k as int) is None);
                        assert(attr_from(attrs@, name@, k as int) == attr_from(
                            attrs@,
                            name@,
                            k + 1,
                        ));
                        assert(attr_from(attrs@, name@, k + 1) is None);
                    }
                    return None;
                }
                let p = skip_ws_idx(attrs, k + name.len());
                if p < n && attrs[p] == '=' as u8 {
                    let q = skip_ws_idx(attrs, p + 1);
                    if q < n && attrs[q] == '"' as u8 {
                        let close = crate::text::find_sub(attrs, quote.as_slice(), q + 1);
                        proof {
                            crate::text::lemma_find_from(attrs@, lit("\""), q + 1);
                        }
                        match close {
                            Some(m) => {
                                if m > q + 1 {
                                    let mut out: Vec<u8> = Vec::new();
                                    crate::text::append_range(&mut out, attrs, q + 1, m);
                                    return Some(out);
                                } else {
                                    i = k + 1;
                                }
                            },
                            None => {
                                i = k + 1;
                            },
                        }
                    } else {
                        i = k + 1;
                    }
                } else {
                    i = k + 1;
                }
            },
        }
    }
}

} // verus!
