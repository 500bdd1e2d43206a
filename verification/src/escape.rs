//! Escaping of dynamic text for the emitted markup: one map for element
//! text content, one for attribute values, and one for code content, where
//! interior newlines become a character reference.

use vstd::prelude::*;

verus! {

use crate::text::lit;

/// How one byte is escaped in element text content: `&`, `<` and `>`
/// become character references, everything else stays itself.
pub open spec fn esc_text_byte(c: u8) -> Seq<u8> {
    if c == '&' as u8 {
        lit("&amp;")
    } else if c == '<' as u8 {
        lit("&lt;")
    } else if c == '>' as u8 {
        lit("&gt;")
    } else {
        seq![c]
    }
}

/// How one byte is escaped in an attribute value: as in text content,
/// and `"` and `'` become character references as well.
pub open spec fn esc_attr_byte(c: u8) -> Seq<u8> {
    if c == '"' as u8 {
        lit("&quot;")
    } else if c == '\'' as u8 {
        lit("&#39;")
    } else {
        esc_text_byte(c)
    }
}

/// How one byte of code content is encoded: as in text content, and a
/// newline becomes a character reference so that the emitted code block
/// holds no raw line breaks.
pub open spec fn enc_code_byte(c: u8) -> Seq<u8> {
    if c == '\n' as u8 {
        lit("&#10;")
    } else {
        esc_text_byte(c)
    }
}

/// A string escaped for element text content.
pub open spec fn esc_text_bytes(s: Seq<u8>) -> Seq<u8>
    decreases s.len(),
{
    if s.len() == 0 {
        Seq::empty()
    } else {
        esc_text_bytes(s.drop_last()) + esc_text_byte(s.last())
    }
}

/// A string escaped for an attribute value.
pub open spec fn esc_attr_bytes(s: Seq<u8>) -> Seq<u8>
    decreases s.len(),
{
    if s.len() == 0 {
        Seq::empty()
    } else {
        esc_attr_bytes(s.drop_last()) + esc_attr_byte(s.last())
    }
}

/// A string of code content, escaped and with newlines encoded.
pub open spec fn enc_code_bytes(s: Seq<u8>) -> Seq<u8>
    decreases s.len(),
{
    if s.len() == 0 {
        Seq::empty()
    } else {
        enc_code_bytes(s.drop_last()) + enc_code_byte(s.last())
    }
}

/// Escapes `&`, `<` and `>` for element text content.
pub fn escape_html_text_content(s: &[u8]) -> (r: Vec<u8>)
    ensures
        r@ == esc_text_bytes(s@),
{
    let n = s.len();
    let mut out: Vec<u8> = Vec::new();
    let mut i: usize = 0;
    while i < n
        invariant
            i <= n == s@.len(),
            out@ == esc_text_bytes(s@.subrange(0, i as int)),
        decreases n - i,
    {
        let c = s[i];
        if c == '&' as u8 {
            crate::text::append_lit(&mut out, "&amp;");
        } else if c == '<' as u8 {
            crate::text::append_lit(&mut out, "&lt;");
        } else if c == '>' as u8 {
            crate::text::append_lit(&mut out, "&gt;");
        } else {
            out.push(c);
        }
        proof {
            assert(s@.subrange(0, i + 1).drop_last() =~= s@.subrange(0, i as int));
            assert(s@.subrange(0, i + 1).last() == s@[i as int]);
        }
        i += 1;
    }
    proof {
        assert(s@.subrange(0, n as int) =~= s@);
    }
    out
}

/// Escapes `&`, `<`, `>`, `"` and `'` for attribute values.
pub fn escape_html_attribute_value(s: &[u8]) -> (r: Vec<u8>)
    ensures
        r@ == esc_attr_bytes(s@),
{
    let n = s.len();
    let mut out: Vec<u8> = Vec::new();
    let mut i: usize = 0;
    while i < n
        invariant
            i <= n == s@.len(),
            out@ == esc_attr_bytes(s@.subrange(0, i as int)),
        decreases n - i,
    {
        let c = s[i];
        if c == '"' as u8 {
            crate::text::append_lit(&mut out, "&quot;");
        } else if c == '\'' as u8 {
            crate::text::append_lit(&mut out, "&#39;");
        } else if c == '&' as u8 {
            crate::text::append_lit(&mut out, "&amp;");
        } else if c == '<' as u8 {
            crate::text::append_lit(&mut out, "&lt;");
        } else if c == '>' as u8 {
            crate::text::append_lit(&mut out, "&gt;");
        } else {
            out.push(c);
        }
        proof {
            assert(s@.subrange(0, i + 1).drop_last() =~= s@.subrange(0, i as int));
            assert(s@.subrange(0, i + 1).last() == s@[i as int]);
        }
        i += 1;
    }
    proof {
        assert(s@.subrange(0, n as int) =~= s@);
    }
    out
}

/// Escapes code content for text positions and encodes newlines.
pub fn encode_code_content(s: &[u8]) -> (r: Vec<u8>)
    ensures
        r@ == enc_code_bytes(s@),
{
    let n = s.len();
    let mut out: Vec<u8> = Vec::new();
    let mut i: usize = 0;
    while i < n
        invariant
            i <= n == s@.len(),
            out@ == enc_code_bytes(s@.subrange(0, i as int)),
        decreases n - i,
    {
        let c = s[i];
        if c == '\n' as u8 {
            crate::text::append_lit(&mut out, "&#10;");
        } else if c == '&' as u8 {
            crate::text::append_lit(&mut out, "&amp;");
        } else if c == '<' as u8 {
            crate::text::append_lit(&mut out, "&lt;");
        } else if c == '>' as u8 {
            crate::text::append_lit(&mut out, "&gt;");
        } else {
            out.push(c);
        }
        proof {
            assert(s@.subrange(0, i + 1).drop_last() =~= s@.subrange(0, i as int));
            assert(s@.subrange(0, i + 1).last() == s@[i as int]);
        }
        i += 1;
    }
    proof {
        assert(s@.subrange(0, n as int) =~= s@);
    }
    out
}

/// The string holds none of the characters that escaping rewrites.
pub open spec fn free_of_escaped_chars(s: Seq<u8>) -> bool {
    forall|i: int|
        0 <= i < s.len() ==> s[i] != '&' as u8 && s[i] != '<' as u8 && s[i] != '>' as u8 && s[i]
            != '"' as u8 && s[i] != '\'' as u8
}

/// Law: escaping a string already free of `&`, `<`, `>`, `"` and `'`
/// returns it unchanged, for both the text and the attribute escape.
pub proof fn lemma_escape_clean_unchanged(s: Seq<u8>)
    requires
        free_of_escaped_chars(s),
    ensures
        esc_text_bytes(s) == s,
        esc_attr_bytes(s) == s,
    decreases s.len(),
{
    if s.len() == 0 {
        assert(esc_text_bytes(s) =~= s);
        assert(esc_attr_bytes(s) =~= s);
    } else {
        assert(free_of_escaped_chars(s.drop_last())) by {
            assert(forall|i: int|
                0 <= i < s.drop_last().len() ==> s.drop_last()[i] == s[i]);
        }
        lemma_escape_clean_unchanged(s.drop_last());
        assert(s.last() == s[s.len() - 1]);
        assert(esc_text_bytes(s) =~= s);
        assert(esc_attr_bytes(s) =~= s);
    }
}

} // verus!
