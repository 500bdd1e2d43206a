//! Tab items: the metadata and code sample of one tab, and the parser
//! that collects every item of a block's inner content. A single item
//! without a fenced code sample invalidates the whole block.

use vstd::prelude::*;

verus! {

use crate::attrs::{attr_value, is_ws};
use crate::fence::fence_result;
use crate::num::dec_digits;
use crate::sanitize::sanitize_spec;
use crate::text::{lit, is_match_at, find_from, lemma_find_from};

/// One parsed tab: its label, its stable value, its code sample's
/// language and content, and whether it asks to start active.
pub struct ParsedTabItem {
    pub tab_label: Vec<u8>,
    pub tab_value: Vec<u8>,
    pub code_language: Vec<u8>,
    pub code_content: Vec<u8>,
    pub is_default_tab: bool,
}

/// The mathematical shape of one tab item.
pub struct TabItemSpec {
    pub label: Seq<u8>,
    pub value: Seq<u8>,
    pub language: Seq<u8>,
    pub code: Seq<u8>,
    pub is_default: bool,
}

impl View for ParsedTabItem {
    type V = TabItemSpec;

    open spec fn view(&self) -> TabItemSpec {
        TabItemSpec {
            label: self.tab_label@,
            value: self.tab_value@,
            language: self.code_language@,
            code: self.code_content@,
            is_default: self.is_default_tab,
        }
    }
}

/// The views of a sequence of parsed items.
pub open spec fn views_of(items: Seq<ParsedTabItem>) -> Seq<TabItemSpec> {
    items.map_values(|it: ParsedTabItem| it@)
}

/// The number of quote characters strictly before position `i`.
pub open spec fn quotes_before(s: Seq<u8>, i: int) -> int
    decreases i,
{
    if i <= 0 {
        0
    } else {
        quotes_before(s, i - 1) + (if s[i - 1] == '"' as u8 {
            1int
        } else {
            0int
        })
    }
}

/// The default marker stands at `i` as an attribute of its own: the bare
/// word, delimited by whitespace or the edges of the attribute text, and
/// outside any quoted value.
pub open spec fn default_token_at(s: Seq<u8>, i: int) -> bool {
    &&& is_match_at(s, lit("default"), i)
    &&& (i == 0 || is_ws(s[i - 1]))
    &&& (i + lit("default").len() == s.len() || is_ws(s[i + lit("default").len()]))
    &&& quotes_before(s, i) % 2 == 0
}

/// The attribute text carries the default-indicator attribute.
pub open spec fn has_default_marker(s: Seq<u8>) -> bool {
    exists|i: int| default_token_at(s, i)
}

/// Decides whether the attribute text carries the default-indicator
/// attribute as a standalone token outside quoted values.
pub fn has_default_attribute(attrs: &[u8]) -> (r: bool)
    ensures
        r == has_default_marker(attrs@),
{
    proof {
        reveal_strlit("default");
    }
    let n = attrs.len();
    let pat = crate::text::lit_vec("default");
    let mut qcount: usize = 0;
    let mut i: usize = 0;
    while i < n
        invariant
            0 <= i <= n == attrs@.len(),
            pat@ == lit("default"),
            qcount <= i,
            qcount as int == quotes_before(attrs@, i as int),
            forall|j: int| 0 <= j < i ==> !default_token_at(attrs@, j),
        decreases n - i,
    {
        if n - i >= pat.len() {
            if crate::text::match_at(attrs, pat.as_slice(), i) {
                if i == 0 || crate::attrs::is_ws_byte(attrs[i - 1]) {
                    let after = i + pat.len();
                    if (after == n || crate::attrs::is_ws_byte(attrs[after])) && qcount % 2 == 0 {
                        proof {
                            assert(default_token_at(attrs@, i as int));
                        }
                        return true;
                    }
                }
            }
        }
        proof {
            assert(!default_token_at(attrs@, i as int));
        }
        if attrs[i] == '"' as u8 {
            qcount += 1;
        }
        i += 1;
    }
    proof {
        assert forall|j: int| !default_token_at(attrs@, j) by {
            if j < 0 || j >= n {
                assert(!is_match_at(attrs@, lit("default"), j));
            }
        }
    }
    false
}

/// The item described by an item tag's attribute text, its zero-based
/// position, and its code sample. The label falls back to the `value`
/// attribute and then to a generated name from the 1-based position; the
/// value falls back to the sanitized label; a tab is default when the
/// attribute text carries the default-indicator attribute.
pub open spec fn item_spec(attrs: Seq<u8>, idx: int, language: Seq<u8>, code: Seq<u8>)
    -> TabItemSpec {
    let label = (match attr_value(attrs, lit("label")) {
        Some(l) => l,
        None => (match attr_value(attrs, lit("value")) {
            Some(v) => v,
            None => lit("Tab ") + dec_digits((idx + 1) as nat),
        }),
    });
    let value = (match attr_value(attrs, lit("value")) {
        Some(v) => v,
        None => sanitize_spec(label),
    });
    TabItemSpec {
        label,
        value,
        language,
        code,
        is_default: has_default_marker(attrs),
    }
}

/// Every item of a block's inner content from `pos` on, with `idx` items
/// already collected before it: each item-marker pair in turn yields one
/// item, a pair whose content lacks a fenced code sample spoils the whole
/// block, and an unpaired remainder ends the collection.
pub open spec fn parse_items(inner: Seq<u8>, pos: int, idx: int) -> Option<Seq<TabItemSpec>>
    decreases inner.len() + 1 - pos,
{
    match find_from(inner, lit("<TabItem"), pos) {
        None => Some(Seq::empty()),
        Some(i) => match find_from(inner, lit(">"), i + lit("<TabItem").len()) {
            None => Some(Seq::empty()),
            Some(j) => match find_from(inner, lit("</TabItem>"), j + 1) {
                None => Some(Seq::empty()),
                Some(c) => {
                    let attrs = inner.subrange(i + lit("<TabItem").len(), j);
                    let content = inner.subrange(j + 1, c);
                    match fence_result(content) {
                        None => None,
                        Some(lc) => {
                            proof {
                                assert(pos >= 0);
                                lemma_find_from(inner, lit("<TabItem"), pos);
                                lemma_find_from(inner, lit(">"), i + lit("<TabItem").len());
                                lemma_find_from(inner, lit("</TabItem>"), j + 1);
                            }
                            match parse_items(inner, c + lit("</TabItem>").len(), idx + 1) {
                                None => None,
                                Some(rest) => Some(
                                    seq![item_spec(attrs, idx, lc.0, lc.1)] + rest,
                                ),
                            }
                        },
                    }
                },
            },
        },
    }
}

/// The zero-based position of the initially active tab from `i` on: the
/// first item asking to be default, or position 0 when none does.
pub open spec fn active_index(items: Seq<TabItemSpec>, i: int) -> int
    decreases items.len() - i,
{
    if i < 0 || i >= items.len() {
        0
    } else if items[i].is_default {
        i
    } else {
        active_index(items, i + 1)
    }
}

/// Finds the initially active tab among the parsed items.
pub fn active_tab_index(items: &Vec<ParsedTabItem>) -> (r: usize)
    ensures
        r as int == active_index(views_of(items@), 0),
        items@.len() > 0 ==> r < items@.len(),
        items@.len() == 0 ==> r == 0,
{
    let n = items.len();
    let mut i: usize = 0;
    while i < n
        invariant
            0 <= i <= n == items@.len(),
            active_index(views_of(items@), 0) == active_index(views_of(items@), i as int),
        decreases n - i,
    {
        if items[i].is_default_tab {
            proof {
                assert(views_of(items@)[i as int] == items@[i as int]@);
            }
            return i;
        }
        proof {
            assert(views_of(items@)[i as int] == items@[i as int]@);
        }
        i += 1;
    }
    0
}

/// Collects every tab item of a block's inner content, or reports that
/// the block cannot be rendered.
pub fn parse_tab_items(inner: &[u8]) -> (r: Option<Vec<ParsedTabItem>>)
    ensures
        (match r {
            Some(items) => parse_items(inner@, 0, 0) == Some(views_of(items@)),
            None => parse_items(inner@, 0, 0) is None,
        }),
{
    proof {
        reveal_strlit("<TabItem");
        reveal_strlit("</TabItem>");
        reveal_strlit(">");
    }
    let n = inner.len();
    let open_pat = crate::text::lit_vec("<TabItem");
    let gt_pat = crate::text::lit_vec(">");
    let close_pat = crate::text::lit_vec("</TabItem>");
    let label_pat = crate::text::lit_vec("label");
    let value_pat = crate::text::lit_vec("value");
    let mut items: Vec<ParsedTabItem> = Vec::new();
    let mut pos: usize = 0;
    loop
        invariant
            0 <= pos <= n == inner@.len(),
            19 * items@.len() <= pos,
            open_pat@ == lit("<TabItem"),
            gt_pat@ == lit(">"),
            close_pat@ == lit("</TabItem>"),
            label_pat@ == lit("label"),
            value_pat@ == lit("value"),
            (match parse_items(inner@, pos as int, items@.len() as int) {
                Some(rest) => parse_items(inner@, 0, 0) == Some(views_of(items@) + rest),
                None => parse_items(inner@, 0, 0) is None,
            }),
        decreases n + 1 - pos,
    {
        let next = crate::text::find_sub(inner, open_pat.as_slice(), pos);
        let mut bounds: Option<(usize, usize, usize)> = None;
        match next {
            None => {},
            Some(i) => {
                proof {
                    lemma_find_from(inner@, lit("<TabItem"), pos as int);
                }
                match crate::text::find_sub(inner, gt_pat.as_slice(), i + open_pat.len()) {
                    None => {},
                    Some(j) => {
                        proof {
                            lemma_find_from(inner@, lit(">"), i + open_pat@.len());
                        }
                        match crate::text::find_sub(inner, close_pat.as_slice(), j + 1) {
                            None => {},
                            Some(c) => {
                                proof {
                                    lemma_find_from(inner@, lit("</TabItem>"), j + 1);
                                }
                                bounds = Some((i, j, c));
                            },
                        }
                    },
                }
            },
        }
        match bounds {
            None => {
                proof {
                    assert(parse_items(inner@, pos as int, items@.len() as int) == Some(
                        Seq::<TabItemSpec>::empty(),
                    ));
                    assert(views_of(items@) + Seq::<TabItemSpec>::empty() =~= views_of(items@));
                }
                return Some(items);
            },
            Some((i, j, c)) => {
                let attrs_sl = vstd::slice::slice_subrange(inner, i + open_pat.len(), j);
                let content_sl = vstd::slice::slice_subrange(inner, j + 1, c);
                match crate::fence::extract_first_fenced_code_block(content_sl) {
                    None => {
                        proof {
                            assert(parse_items(inner@, pos as int, items@.len() as int)
                                is None);
                        }
                        return None;
                    },
                    Some((lang, code)) => {
                        let label: Vec<u8> = (match crate::attrs::parse_attribute_value(
                            attrs_sl,
                            label_pat.as_slice(),
                        ) {
                            Some(l) => l,
                            None => (match crate::attrs::parse_attribute_value(
                                attrs_sl,
                                value_pat.as_slice(),
                            ) {
                                Some(v) => v,
                                None => {
                                    let mut t = crate::text::lit_vec("Tab ");
                                    let d = crate::num::u64_to_dec(items.len() as u64 + 1);
                                    crate::text::append_slice(&mut t, d.as_slice());
                                    t
                                },
                            }),
                        });
                        let value: Vec<u8> = (match crate::attrs::parse_attribute_value(
                            attrs_sl,
                            value_pat.as_slice(),
                        ) {
                            Some(v) => v,
                            None => crate::sanitize::sanitize_identifier(label.as_slice()),
                        });
                        let is_default = has_default_attribute(attrs_sl);
                        let ghost old_items = items@;
                        let ghost old_pos = pos as int;
                        let item = ParsedTabItem {
                            tab_label: label,
                            tab_value: value,
                            code_language: lang,
                            code_content: code,
                            is_default_tab: is_default,
                        };
                        proof {
                            assert(item@ == item_spec(
                                attrs_sl@,
                                items@.len() as int,
                                item.code_language@,
                                item.code_content@,
                            ));
                        }
                        items.push(item);
                        pos = c + close_pat.len();
                        proof {
                            assert(views_of(items@) =~= views_of(old_items).push(
                                items@[old_items.len() as int]@,
                            ));
                            let rest0 = parse_items(inner@, old_pos, old_items.len() as int);
                            let rest1 = parse_items(inner@, pos as int, items@.len() as int);
                            assert(rest0 == (match rest1 {
                                None => None::<Seq<TabItemSpec>>,
                                Some(rest) => Some(
                                    seq![items@[old_items.len() as int]@] + rest,
                                ),
                            }));
                            if rest1 is Some {
                                assert(views_of(old_items) + (seq![
                                    items@[old_items.len() as int]@,
                                ] + rest1->Some_0) =~= views_of(items@) + rest1->Some_0);
                            }
                        }
                    },
                }
            },
        }
    }
}

} // verus!
