//! Emission of the replacement markup for one parsed block: a container
//! carrying the sanitized group identifier, a tab list with one control
//! per item, and a panel region with one panel per item, each pair linked
//! by identifiers built from the group identifier and the item's value.

use vstd::prelude::*;

verus! {

use crate::attrs::attr_value;
use crate::escape::{esc_attr_bytes, esc_text_bytes, enc_code_bytes};
use crate::item::{TabItemSpec, ParsedTabItem, views_of, parse_items, active_index};
use crate::sanitize::sanitize_spec;
use crate::text::lit;

/// The block's group identifier: the `groupId` attribute of the open
/// tag, or the fixed fallback.
pub open spec fn group_of(open_tag: Seq<u8>) -> Seq<u8> {
    match attr_value(open_tag, lit("groupId")) {
        Some(g) => g,
        None => lit("language-tabs-group"),
    }
}

/// The identifier of an item's control.
pub open spec fn button_id(g: Seq<u8>, value: Seq<u8>) -> Seq<u8> {
    lit("language-tabs-") + g + lit("-button-") + sanitize_spec(value)
}

/// The identifier of an item's panel.
pub open spec fn panel_id(g: Seq<u8>, value: Seq<u8>) -> Seq<u8> {
    lit("language-tabs-") + g + lit("-panel-") + sanitize_spec(value)
}

/// The opening of the container and of the tab list.
pub open spec fn group_start(g: Seq<u8>) -> Seq<u8> {
    lit("<div class=\"language-tabs\" data-language-tabs-group=\"") + esc_attr_bytes(g) + lit(
        "\">\n",
    ) + lit("<div class=\"language-tabs-list\" role=\"tablist\" aria-label=\"Programming language tabs\">\n")
}

/// One item's control, linked to its panel and marked active or not.
pub open spec fn button_html(it: TabItemSpec, active: bool, g: Seq<u8>) -> Seq<u8> {
    lit("<button class=\"language-tabs-trigger") + (if active {
        lit(" is-active")
    } else {
        Seq::<u8>::empty()
    }) + lit("\" type=\"button\" role=\"tab\" id=\"") + esc_attr_bytes(button_id(g, it.value))
        + lit("\" aria-controls=\"") + esc_attr_bytes(panel_id(g, it.value)) + lit(
        "\" aria-selected=\"",
    ) + (if active {
        lit("true")
    } else {
        lit("false")
    }) + lit("\" data-language-tabs-value=\"") + esc_attr_bytes(it.value) + lit("\">")
        + esc_text_bytes(it.label) + lit("</button>\n")
}

/// One item's panel, labelled by its control and holding the code block.
pub open spec fn panel_html(it: TabItemSpec, active: bool, g: Seq<u8>) -> Seq<u8> {
    lit("<section class=\"language-tabs-panel") + (if active {
        lit(" is-active")
    } else {
        Seq::<u8>::empty()
    }) + lit("\" role=\"tabpanel\" id=\"") + esc_attr_bytes(panel_id(g, it.value)) + lit(
        "\" aria-labelledby=\"",
    ) + esc_attr_bytes(button_id(g, it.value)) + lit("\" data-language-tabs-value=\"")
        + esc_attr_bytes(it.value) + lit("\">\n") + lit("<pre><code class=\"language-")
        + esc_attr_bytes(it.language) + lit("\">") + enc_code_bytes(it.code) + lit(
        "</code></pre>\n",
    ) + lit("</section>\n")
}

/// All controls from item `i` on, in source order.
pub open spec fn buttons_from(items: Seq<TabItemSpec>, act: int, g: Seq<u8>, i: int) -> Seq<u8>
    decreases items.len() - i,
{
    if i < 0 || i >= items.len() {
        Seq::empty()
    } else {
        button_html(items[i], i == act, g) + buttons_from(items, act, g, i + 1)
    }
}

/// All panels from item `i` on, in source order.
pub open spec fn panels_from(items: Seq<TabItemSpec>, act: int, g: Seq<u8>, i: int) -> Seq<u8>
    decreases items.len() - i,
{
    if i < 0 || i >= items.len() {
        Seq::empty()
    } else {
        panel_html(items[i], i == act, g) + panels_from(items, act, g, i + 1)
    }
}

/// The close of the tab list and the opening of the panel region.
pub open spec fn list_end() -> Seq<u8> {
    lit("</div>\n") + lit("<div class=\"language-tabs-panels\">\n")
}

/// The close of the panel region and of the container.
pub open spec fn group_end() -> Seq<u8> {
    lit("</div>\n") + lit("</div>\n")
}

/// The whole replacement markup of one block.
pub open spec fn html_of(g: Seq<u8>, items: Seq<TabItemSpec>, act: int) -> Seq<u8> {
    group_start(g) + buttons_from(items, act, g, 0) + list_end() + panels_from(items, act, g, 0)
        + group_end()
}

/// What a block renders to: nothing when it has no items or an item lacks
/// a code sample, else the markup for its items, its sanitized group
/// identifier, and its initially active tab.
pub open spec fn render_spec(open_tag: Seq<u8>, inner: Seq<u8>) -> Option<Seq<u8>> {
    match parse_items(inner, 0, 0) {
        None => None,
        Some(items) => if items.len() == 0 {
            None
        } else {
            Some(html_of(sanitize_spec(group_of(open_tag)), items, active_index(items, 0)))
        },
    }
}

/// The control fragments of a block, one per item, in source order.
pub open spec fn button_fragments(items: Seq<TabItemSpec>, act: int, g: Seq<u8>) -> Seq<Seq<u8>> {
    Seq::new(items.len(), |i: int| button_html(items[i], i == act, g))
}

/// The panel fragments of a block, one per item, in source order.
pub open spec fn panel_fragments(items: Seq<TabItemSpec>, act: int, g: Seq<u8>) -> Seq<Seq<u8>> {
    Seq::new(items.len(), |i: int| panel_html(items[i], i == act, g))
}

/// A sequence of fragments, joined in order.
pub open spec fn concat_all(frags: Seq<Seq<u8>>) -> Seq<u8>
    decreases frags.len(),
{
    if frags.len() == 0 {
        Seq::empty()
    } else {
        frags[0] + concat_all(frags.drop_first())
    }
}

/// The controls from item `k` on are the joined control fragments from
/// `k` on.
proof fn lemma_buttons_concat(items: Seq<TabItemSpec>, act: int, g: Seq<u8>, k: int)
    requires
        0 <= k <= items.len(),
    ensures
        buttons_from(items, act, g, k) == concat_all(button_fragments(items, act, g).skip(k)),
    decreases items.len() - k,
{
    let frags = button_fragments(items, act, g);
    if k == items.len() {
        assert(frags.skip(k) =~= Seq::<Seq<u8>>::empty());
    } else {
        lemma_buttons_concat(items, act, g, k + 1);
        assert(frags.skip(k)[0] == frags[k]);
        assert(frags.skip(k).drop_first() =~= frags.skip(k + 1));
    }
}

/// The panels from item `k` on are the joined panel fragments from `k`
/// on.
proof fn lemma_panels_concat(items: Seq<TabItemSpec>, act: int, g: Seq<u8>, k: int)
    requires
        0 <= k <= items.len(),
    ensures
        panels_from(items, act, g, k) == concat_all(panel_fragments(items, act, g).skip(k)),
    decreases items.len() - k,
{
    let frags = panel_fragments(items, act, g);
    if k == items.len() {
        assert(frags.skip(k) =~= Seq::<Seq<u8>>::empty());
    } else {
        lemma_panels_concat(items, act, g, k + 1);
        assert(frags.skip(k)[0] == frags[k]);
        assert(frags.skip(k).drop_first() =~= frags.skip(k + 1));
    }
}

/// Law: a block's markup holds exactly one control fragment and one
/// panel fragment per item, in source order: it is the container
/// opening, the joined control fragments, the divider, the joined panel
/// fragments, and the closing, where fragment `i` of each kind is built
/// from item `i`, is the active variant exactly when `i` is the active
/// position, and carries the identifier pair built from the group
/// identifier and item `i`'s value.
pub proof fn lemma_block_markup_shape(g: Seq<u8>, items: Seq<TabItemSpec>, act: int)
    ensures
        html_of(g, items, act) == group_start(g) + concat_all(button_fragments(items, act, g))
            + list_end() + concat_all(panel_fragments(items, act, g)) + group_end(),
        button_fragments(items, act, g).len() == items.len(),
        panel_fragments(items, act, g).len() == items.len(),
        forall|i: int|
            0 <= i < items.len() ==> button_fragments(items, act, g)[i] == button_html(
                items[i],
                i == act,
                g,
            ),
        forall|i: int|
            0 <= i < items.len() ==> panel_fragments(items, act, g)[i] == panel_html(
                items[i],
                i == act,
                g,
            ),
{
    lemma_buttons_concat(items, act, g, 0);
    lemma_panels_concat(items, act, g, 0);
    assert(button_fragments(items, act, g).skip(0) =~= button_fragments(items, act, g));
    assert(panel_fragments(items, act, g).skip(0) =~= panel_fragments(items, act, g));
}

/// The active position from `k` on is the first default item at or after
/// `k`, or 0 when none follows.
proof fn lemma_active_index_from(items: Seq<TabItemSpec>, k: int)
    requires
        0 <= k <= items.len(),
    ensures
        (exists|i: int| k <= i < items.len() && items[i].is_default) ==> k <= active_index(
            items,
            k,
        ) < items.len() && items[active_index(items, k)].is_default && (forall|j: int|
            k <= j < active_index(items, k) ==> !items[j].is_default),
        !(exists|i: int| k <= i < items.len() && items[i].is_default) ==> active_index(items, k)
            == 0,
    decreases items.len() - k,
{
    if k < items.len() {
        if !items[k].is_default {
            lemma_active_index_from(items, k + 1);
            assert((exists|i: int| k <= i < items.len() && items[i].is_default) ==> (exists|i: int|
                k + 1 <= i < items.len() && items[i].is_default));
        }
    }
}

/// Law: exactly one item renders active: the first item that asks to be
/// the default, or item 0 when none asks. Together with the fragment
/// shape above, exactly the fragments at this one position are the
/// active variants.
pub proof fn lemma_one_active_tab(items: Seq<TabItemSpec>)
    requires
        items.len() > 0,
    ensures
        0 <= active_index(items, 0) < items.len(),
        (exists|i: int| 0 <= i < items.len() && items[i].is_default) ==> items[active_index(
            items,
            0,
        )].is_default && (forall|j: int|
            0 <= j < active_index(items, 0) ==> !items[j].is_default),
        !(exists|i: int| 0 <= i < items.len() && items[i].is_default) ==> active_index(items, 0)
            == 0,
{
    lemma_active_index_from(items, 0);
}

/// Builds one of the two linked identifiers.
fn build_id(g: &[u8], mid: &str, value: &[u8]) -> (r: Vec<u8>)
    ensures
        r@ == lit("language-tabs-") + g@ + lit(mid) + sanitize_spec(value@),
{
    let mut id = crate::text::lit_vec("language-tabs-");
    crate::text::append_slice(&mut id, g);
    let m = crate::text::lit_vec(mid);
    crate::text::append_slice(&mut id, m.as_slice());
    let sv = crate::sanitize::sanitize_identifier(value);
    crate::text::append_slice(&mut id, sv.as_slice());
    proof {
        assert(id@ =~= lit("language-tabs-") + g@ + lit(mid) + sanitize_spec(value@));
    }
    id
}

/// Opens the container and the tab list for a block.
pub fn write_tabs_group_start(out: &mut Vec<u8>, group: &[u8])
    ensures
        final(out)@ == old(out)@ + group_start(group@),
{
    crate::text::append_lit(out, "<div class=\"language-tabs\" data-language-tabs-group=\"");
    let eg = crate::escape::escape_html_attribute_value(group);
    crate::text::append_slice(out, eg.as_slice());
    crate::text::append_lit(out, "\">\n");
    crate::text::append_lit(
        out,
        "<div class=\"language-tabs-list\" role=\"tablist\" aria-label=\"Programming language tabs\">\n",
    );
    proof {
        assert(out@ =~= old(out)@ + group_start(group@));
    }
}

/// Writes one control per item, then closes the tab list and opens the
/// panel region.
#[verifier::rlimit(80)]
pub fn write_tabs_group_buttons(
    out: &mut Vec<u8>,
    items: &Vec<ParsedTabItem>,
    active_tab_index: usize,
    group: &[u8],
)
    ensures
        final(out)@ == old(out)@ + buttons_from(
            views_of(items@),
            active_tab_index as int,
            group@,
            0,
        ) + list_end(),
{
    let ghost views = views_of(items@);
    let ghost act = active_tab_index as int;
    let n = items.len();
    let mut i: usize = 0;
    while i < n
        invariant
            0 <= i <= n == items@.len(),
            views == views_of(items@),
            act == active_tab_index as int,
            old(out)@ + buttons_from(views, act, group@, 0) == out@ + buttons_from(
                views,
                act,
                group@,
                i as int,
            ),
        decreases n - i,
    {
        let ghost prev = out@;
        let it = &items[i];
        let is_active = i == active_tab_index;
        let bid = build_id(group, "-button-", it.tab_value.as_slice());
        let pid = build_id(group, "-panel-", it.tab_value.as_slice());
        let ebid = crate::escape::escape_html_attribute_value(bid.as_slice());
        let epid = crate::escape::escape_html_attribute_value(pid.as_slice());
        let ev = crate::escape::escape_html_attribute_value(it.tab_value.as_slice());
        let el = crate::escape::escape_html_text_content(it.tab_label.as_slice());
        crate::text::append_lit(out, "<button class=\"language-tabs-trigger");
        if is_active {
            crate::text::append_lit(out, " is-active");
        }
        crate::text::append_lit(out, "\" type=\"button\" role=\"tab\" id=\"");
        crate::text::append_slice(out, ebid.as_slice());
        crate::text::append_lit(out, "\" aria-controls=\"");
        crate::text::append_slice(out, epid.as_slice());
        crate::text::append_lit(out, "\" aria-selected=\"");
        if is_active {
            crate::text::append_lit(out, "true");
        } else {
            crate::text::append_lit(out, "false");
        }
        crate::text::append_lit(out, "\" data-language-tabs-value=\"");
        crate::text::append_slice(out, ev.as_slice());
        crate::text::append_lit(out, "\">");
        crate::text::append_slice(out, el.as_slice());
        crate::text::append_lit(out, "</button>\n");
        proof {
            assert(views[i as int] == items@[i as int]@);
            assert(out@ =~= prev + button_html(views[i as int], i as int == act, group@));
            assert(buttons_from(views, act, group@, i as int) == button_html(
                views[i as int],
                i as int == act,
                group@,
            ) + buttons_from(views, act, group@, i + 1));
            assert(prev + (button_html(views[i as int], i as int == act, group@) + buttons_from(
                views,
                act,
                group@,
                i + 1,
            )) =~= out@ + buttons_from(views, act, group@, i + 1));
        }
        i += 1;
    }
    proof {
        assert(buttons_from(views, act, group@, n as int) =~= Seq::<u8>::empty());
        assert(out@ + Seq::<u8>::empty() =~= out@);
    }
    crate::text::append_lit(out, "</div>\n");
    crate::text::append_lit(out, "<div class=\"language-tabs-panels\">\n");
    proof {
        assert(out@ =~= old(out)@ + buttons_from(views, act, group@, 0) + list_end());
    }
}

/// Writes one panel per item, in the same order as the controls.
#[verifier::rlimit(80)]
pub fn write_tabs_group_panels(
    out: &mut Vec<u8>,
    items: &Vec<ParsedTabItem>,
    active_tab_index: usize,
    group: &[u8],
)
    ensures
        final(out)@ == old(out)@ + panels_from(
            views_of(items@),
            active_tab_index as int,
            group@,
            0,
        ),
{
    let ghost views = views_of(items@);
    let ghost act = active_tab_index as int;
    let n = items.len();
    let mut i: usize = 0;
    while i < n
        invariant
            0 <= i <= n == items@.len(),
            views == views_of(items@),
            act == active_tab_index as int,
            old(out)@ + panels_from(views, act, group@, 0) == out@ + panels_from(
                views,
                act,
                group@,
                i as int,
            ),
        decreases n - i,
    {
        let ghost prev = out@;
        let it = &items[i];
        let is_active = i == active_tab_index;
        let bid = build_id(group, "-button-", it.tab_value.as_slice());
        let pid = build_id(group, "-panel-", it.tab_value.as_slice());
        let ebid = crate::escape::escape_html_attribute_value(bid.as_slice());
        let epid = crate::escape::escape_html_attribute_value(pid.as_slice());
        let ev = crate::escape::escape_html_attribute_value(it.tab_value.as_slice());
        let elang = crate::escape::escape_html_attribute_value(it.code_language.as_slice());
        let ecode = crate::escape::encode_code_content(it.code_content.as_slice());
        crate::text::append_lit(out, "<section class=\"language-tabs-panel");
        if is_active {
            crate::text::append_lit(out, " is-active");
        }
        crate::text::append_lit(out, "\" role=\"tabpanel\" id=\"");
        crate::text::append_slice(out, epid.as_slice());
        crate::text::append_lit(out, "\" aria-labelledby=\"");
        crate::text::append_slice(out, ebid.as_slice());
        crate::text::append_lit(out, "\" data-language-tabs-value=\"");
        crate::text::append_slice(out, ev.as_slice());
        crate::text::append_lit(out, "\">\n");
        crate::text::append_lit(out, "<pre><code class=\"language-");
        crate::text::append_slice(out, elang.as_slice());
        crate::text::append_lit(out, "\">");
        crate::text::append_slice(out, ecode.as_slice());
        crate::text::append_lit(out, "</code></pre>\n");
        crate::text::append_lit(out, "</section>\n");
        proof {
            assert(views[i as int] == items@[i as int]@);
            assert(out@ =~= prev + panel_html(views[i as int], i as int == act, group@));
            assert(panels_from(views, act, group@, i as int) == panel_html(
                views[i as int],
                i as int == act,
                group@,
            ) + panels_from(views, act, group@, i + 1));
            assert(prev + (panel_html(views[i as int], i as int == act, group@) + panels_from(
                views,
                act,
                group@,
                i + 1,
            )) =~= out@ + panels_from(views, act, group@, i + 1));
        }
        i += 1;
    }
    proof {
        assert(panels_from(views, act, group@, n as int) =~= Seq::<u8>::empty());
        assert(out@ + Seq::<u8>::empty() =~= out@);
        assert(out@ =~= old(out)@ + panels_from(views, act, group@, 0));
    }
}

/// Closes the panel region and the container.
pub fn write_tabs_group_end(out: &mut Vec<u8>)
    ensures
        final(out)@ == old(out)@ + group_end(),
{
    crate::text::append_lit(out, "</div>\n");
    crate::text::append_lit(out, "</div>\n");
    proof {
        assert(out@ =~= old(out)@ + group_end());
    }
}

/// Renders one block from its open tag and inner content, or reports
/// that the block must pass through unchanged.
pub fn render_tabs_group_html(tabs_open_tag: &[u8], tabs_inner_content: &[u8]) -> (r: Option<
    Vec<u8>,
>)
    ensures
        (match r {
            Some(v) => render_spec(tabs_open_tag@, tabs_inner_content@) == Some(v@),
            None => render_spec(tabs_open_tag@, tabs_inner_content@) is None,
        }),
{
    let items = (match crate::item::parse_tab_items(tabs_inner_content) {
        Some(items) => items,
        None => {
            return None;
        },
    });
    if items.len() == 0 {
        return None;
    }
    let groupid_pat = crate::text::lit_vec("groupId");
    let raw_group = (match crate::attrs::parse_attribute_value(
        tabs_open_tag,
        groupid_pat.as_slice(),
    ) {
        Some(g) => g,
        None => crate::text::lit_vec("language-tabs-group"),
    });
    let group = crate::sanitize::sanitize_identifier(raw_group.as_slice());
    let act = crate::item::active_tab_index(&items);
    let mut html: Vec<u8> = Vec::new();
    write_tabs_group_start(&mut html, group.as_slice());
    write_tabs_group_buttons(&mut html, &items, act, group.as_slice());
    write_tabs_group_panels(&mut html, &items, act, group.as_slice());
    write_tabs_group_end(&mut html);
    proof {
        assert(group@ == sanitize_spec(group_of(tabs_open_tag@)));
        assert(html@ =~= html_of(group@, views_of(items@), act as int));
    }
    Some(html)
}

} // verus!
