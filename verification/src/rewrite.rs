//! The block scanner: finds every tab-group block in a text body and
//! replaces each renderable one with its generated markup. Unterminated
//! markers and blocks that cannot be rendered pass through unchanged, and
//! text outside blocks is copied byte-for-byte.

use vstd::prelude::*;

verus! {

use crate::attrs::is_ws;
use crate::item::{TabItemSpec, parse_items};
use crate::render::render_spec;
use crate::text::{lit, find_from, lemma_find_from, trim_when, lemma_trim_front_when,
    lemma_trim_back_when};

/// A rendered block as spliced into the output: a leading line break, the
/// markup with its edges trimmed, and two trailing line breaks.
pub open spec fn rendered_block(html: Seq<u8>) -> Seq<u8> {
    lit("\n") + trim_when(html, |c: u8| is_ws(c)) + lit("\n\n")
}

/// The transformed text from `pos` on: each block found in turn is
/// replaced by its markup or passed through, an opening marker without a
/// terminating `>` or a closing marker ends the scan with the remainder
/// copied unchanged, and text between blocks is copied unchanged.
pub open spec fn transform_spec(s: Seq<u8>, pos: int) -> Seq<u8>
    decreases s.len() + 1 - pos,
{
    match find_from(s, lit("<Tabs"), pos) {
        None => s.subrange(pos, s.len() as int),
        Some(i) => {
            let before = s.subrange(pos, i);
            match find_from(s, lit(">"), i) {
                None => before + s.subrange(i, s.len() as int),
                Some(j) => match find_from(s, lit("</Tabs>"), j + 1) {
                    None => before + s.subrange(i, s.len() as int),
                    Some(c) => {
                        let after_close = c + lit("</Tabs>").len();
                        let replaced = (match render_spec(
                            s.subrange(i, j + 1),
                            s.subrange(j + 1, c),
                        ) {
                            Some(html) => rendered_block(html),
                            None => s.subrange(i, after_close),
                        });
                        proof {
                            assert(pos >= 0);
                            lemma_find_from(s, lit("<Tabs"), pos);
                            lemma_find_from(s, lit(">"), i);
                            lemma_find_from(s, lit("</Tabs>"), j + 1);
                        }
                        before + replaced + transform_spec(s, after_close)
                    },
                },
            }
        },
    }
}

/// Rewrites every tab-group block of a text body, exactly as
/// `transform_spec` describes from position 0.
#[verifier::rlimit(100)]
pub fn transform_docusaurus_tabs_blocks(markdown_content: &[u8]) -> (r: Vec<u8>)
    ensures
        r@ == transform_spec(markdown_content@, 0),
{
    proof {
        reveal_strlit("<Tabs");
        reveal_strlit(">");
        reveal_strlit("</Tabs>");
    }
    let n = markdown_content.len();
    let open_pat = crate::text::lit_vec("<Tabs");
    let gt_pat = crate::text::lit_vec(">");
    let close_pat = crate::text::lit_vec("</Tabs>");
    let mut out: Vec<u8> = Vec::new();
    let mut pos: usize = 0;
    loop
        invariant
            0 <= pos <= n == markdown_content@.len(),
            open_pat@ == lit("<Tabs"),
            gt_pat@ == lit(">"),
            close_pat@ == lit("</Tabs>"),
            transform_spec(markdown_content@, 0) == out@ + transform_spec(
                markdown_content@,
                pos as int,
            ),
        decreases n + 1 - pos,
    {
        let next = crate::text::find_sub(markdown_content, open_pat.as_slice(), pos);
        match next {
            None => {
                crate::text::append_range(&mut out, markdown_content, pos, n);
                return out;
            },
            Some(i) => {
                proof {
                    lemma_find_from(markdown_content@, lit("<Tabs"), pos as int);
                }
                let gt = crate::text::find_sub(markdown_content, gt_pat.as_slice(), i);
                let mut ends: Option<(usize, usize)> = None;
                match gt {
                    None => {},
                    Some(j) => {
                        proof {
                            lemma_find_from(markdown_content@, lit(">"), i as int);
                        }
                        match crate::text::find_sub(markdown_content, close_pat.as_slice(), j
                            + 1) {
                            None => {},
                            Some(c) => {
                                proof {
                                    lemma_find_from(markdown_content@, lit("</Tabs>"), j + 1);
                                }
                                ends = Some((j, c));
                            },
                        }
                    },
                }
                match ends {
                    None => {
                        crate::text::append_range(&mut out, markdown_content, pos, i);
                        crate::text::append_range(&mut out, markdown_content, i, n);
                        return out;
                    },
                    Some((j, c)) => {
                        let ghost entry = out@;
                        crate::text::append_range(&mut out, markdown_content, pos, i);
                        let open_tag_sl = vstd::slice::slice_subrange(markdown_content, i, j + 1);
                        let inner_sl = vstd::slice::slice_subrange(markdown_content, j + 1, c);
                        let rendered = crate::render::render_tabs_group_html(
                            open_tag_sl,
                            inner_sl,
                        );
                        match rendered {
                            Some(html) => {
                                crate::text::append_lit(&mut out, "\n");
                                let hn = html.len();
                                let mut lo: usize = 0;
                                let mut hi: usize = hn;
                                while lo < hi && crate::attrs::is_ws_byte(html[lo])
                                    invariant
                                        0 <= lo <= hi == hn == html@.len(),
                                        forall|t: int| 0 <= t < lo ==> is_ws(html@[t]),
                                    decreases hi - lo,
                                {
                                    lo += 1;
                                }
                                while hi > lo && crate::attrs::is_ws_byte(html[hi - 1])
                                    invariant
                                        lo <= hi <= hn == html@.len(),
                                        forall|t: int| 0 <= t < lo ==> is_ws(html@[t]),
                                        forall|t: int| hi <= t < hn ==> is_ws(html@[t]),
                                    decreases hi,
                                {
                                    hi -= 1;
                                }
                                proof {
                                    let pred = (|c: u8| is_ws(c));
                                    lemma_trim_front_when(html@, pred, lo as int);
                                    let mid = html@.skip(lo as int);
                                    assert forall|t: int| hi - lo <= t < mid.len() implies pred(
                                        mid[t],
                                    ) by {
                                        assert(mid[t] == html@[t + lo]);
                                    }
                                    if hi > lo {
                                        assert(mid[hi - lo - 1] == html@[hi - 1]);
                                    }
                                    lemma_trim_back_when(mid, pred, hi - lo as int);
                                    assert(trim_when(html@, pred) =~= html@.subrange(
                                        lo as int,
                                        hi as int,
                                    ));
                                }
                                crate::text::append_range(&mut out, html.as_slice(), lo, hi);
                                crate::text::append_lit(&mut out, "\n\n");
                                proof {
                                    assert(out@ =~= entry + markdown_content@.subrange(
                                        pos as int,
                                        i as int,
                                    ) + rendered_block(html@));
                                }
                            },
                            None => {
                                crate::text::append_range(
                                    &mut out,
                                    markdown_content,
                                    i,
                                    c + close_pat.len(),
                                );
                            },
                        }
                        let ghost old_pos = pos as int;
                        pos = c + close_pat.len();
                        proof {
                            assert(transform_spec(markdown_content@, 0) == out@ + transform_spec(
                                markdown_content@,
                                pos as int,
                            )) by {
                                assert(transform_spec(markdown_content@, old_pos)
                                    == markdown_content@.subrange(old_pos, i as int) + (match
                                render_spec(
                                    markdown_content@.subrange(i as int, j + 1),
                                    markdown_content@.subrange(j + 1, c as int),
                                ) {
                                    Some(html) => rendered_block(html),
                                    None => markdown_content@.subrange(i as int, pos as int),
                                }) + transform_spec(markdown_content@, pos as int));
                                assert(entry + transform_spec(markdown_content@, old_pos) =~= out@
                                    + transform_spec(markdown_content@, pos as int));
                            }
                        }
                    },
                }
            },
        }
    }
}

/// The capability answer for a renderer: this transformer applies to the
/// `html` renderer and to no other.
pub fn supports_renderer(renderer: &[u8]) -> (r: bool)
    ensures
        r == (renderer@ == lit("html")),
{
    let pat = crate::text::lit_vec("html");
    if renderer.len() == pat.len() {
        let m = crate::text::match_at(renderer, pat.as_slice(), 0);
        proof {
            assert(renderer@.subrange(0, pat@.len() as int) =~= renderer@);
        }
        m
    } else {
        false
    }
}

/// Law: a block that renders to nothing passes through byte-identically:
/// the output holds the block's whole span unchanged, between the copied
/// text before it and the transformed remainder after it.
pub proof fn lemma_malformed_block_round_trip(s: Seq<u8>, pos: int, i: int, j: int, c: int)
    requires
        0 <= pos,
        find_from(s, lit("<Tabs"), pos) == Some(i),
        find_from(s, lit(">"), i) == Some(j),
        find_from(s, lit("</Tabs>"), j + 1) == Some(c),
        render_spec(s.subrange(i, j + 1), s.subrange(j + 1, c)) is None,
    ensures
        transform_spec(s, pos) == s.subrange(pos, i) + s.subrange(i, c + lit("</Tabs>").len())
            + transform_spec(s, c + lit("</Tabs>").len()),
{
}

/// Law: a block renders to nothing exactly when its inner content yields
/// no tab items at all or yields one whose content lacks a fenced code
/// sample.
pub proof fn lemma_render_none_cases(open_tag: Seq<u8>, inner: Seq<u8>)
    ensures
        render_spec(open_tag, inner) is None <==> (parse_items(inner, 0, 0) is None || parse_items(
            inner,
            0,
            0,
        ) == Some(Seq::<TabItemSpec>::empty())),
{
    match parse_items(inner, 0, 0) {
        None => {},
        Some(items) => {
            if items.len() == 0 {
                assert(items =~= Seq::<TabItemSpec>::empty());
            }
        },
    }
}

/// Law: an opening marker whose tag is never closed by `>`, or whose
/// block has no closing marker, passes through unchanged together with
/// everything after it, to the end of the input.
pub proof fn lemma_unterminated_block_preserved(s: Seq<u8>, pos: int, i: int)
    requires
        0 <= pos,
        find_from(s, lit("<Tabs"), pos) == Some(i),
        (match find_from(s, lit(">"), i) {
            None => true,
            Some(j) => find_from(s, lit("</Tabs>"), j + 1) is None,
        }),
    ensures
        transform_spec(s, pos) == s.subrange(pos, i) + s.subrange(i, s.len() as int),
{
}

/// Law: text outside any block is copied byte-for-byte: with no further
/// opening marker the rest of the input is the output unchanged, and the
/// text before a found marker stands unchanged at the start of the
/// output.
pub proof fn lemma_outside_text_copied(s: Seq<u8>, pos: int)
    requires
        0 <= pos <= s.len(),
    ensures
        find_from(s, lit("<Tabs"), pos) is None ==> transform_spec(s, pos) == s.subrange(
            pos,
            s.len() as int,
        ),
        (match find_from(s, lit("<Tabs"), pos) {
            None => true,
            Some(i) => transform_spec(s, pos).subrange(0, i - pos) == s.subrange(pos, i),
        }),
{
    match find_from(s, lit("<Tabs"), pos) {
        None => {},
        Some(i) => {
            lemma_find_from(s, lit("<Tabs"), pos);
            let before = s.subrange(pos, i);
            let rest = transform_spec(s, pos).subrange(before.len() as int, transform_spec(
                s,
                pos,
            ).len() as int);
            match find_from(s, lit(">"), i) {
                None => {
                    assert((before + s.subrange(i, s.len() as int)).subrange(0, i - pos)
                        =~= before);
                },
                Some(j) => {
                    match find_from(s, lit("</Tabs>"), j + 1) {
                        None => {
                            assert((before + s.subrange(i, s.len() as int)).subrange(0, i - pos)
                                =~= before);
                        },
                        Some(c) => {
                            lemma_find_from(s, lit(">"), i);
                            lemma_find_from(s, lit("</Tabs>"), j + 1);
                            let after_close = c + lit("</Tabs>").len();
                            let replaced = (match render_spec(
                                s.subrange(i, j + 1),
                                s.subrange(j + 1, c),
                            ) {
                                Some(html) => rendered_block(html),
                                None => s.subrange(i, after_close),
                            });
                            assert((before + replaced + transform_spec(s, after_close)).subrange(
                                0,
                                i - pos,
                            ) =~= before);
                        },
                    }
                },
            }
        },
    }
}

} // verus!
