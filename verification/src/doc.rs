//! Conversion of rendered `#[doc = "…"]` attributes back into `///` doc
//! comments.
//!
//! The text is scanned character by character. Wherever a hash is followed
//! — after horizontal whitespace — by the exact opening `[doc = "`, the
//! quoted content and the closing bracket, the whole attribute is replaced
//! by `///` followed by the quoted content; everything else is copied
//! through unchanged.

use vstd::prelude::*;
use vstd::string::StrSliceExecFns;
use vstd::string::StringExecFns;

use crate::modfile::{is_ws, lemma_ws_start, ws_start};
use crate::text::{chars_to_string, str_to_chars};

verus! {

/// The index of the first double quote at or after `i`, or the length.
pub open spec fn quote_end(s: Seq<char>, i: int) -> int
    decreases s.len() - i,
{
    if i < 0 || i >= s.len() {
        s.len() as int
    } else if s[i] == '"' {
        i
    } else {
        quote_end(s, i + 1)
    }
}

/// The characters opening a rendered doc attribute, after the hash.
pub open spec fn doc_attr_open() -> Seq<char> {
    seq!['[', 'd', 'o', 'c', ' ', '=', ' ', '"']
}

/// The doc attribute starting at position `i`, when the text carries one
/// there: its quoted content and the position just after the closing
/// bracket.
pub open spec fn doc_attr_at(s: Seq<char>, i: int) -> Option<(Seq<char>, int)> {
    if !(0 <= i < s.len()) || s[i] != '#' {
        None
    } else {
        let p = ws_start(s, i + 1);
        if !(p + 8 < s.len()) || s[p] != '[' {
            None
        } else if s.subrange(p, p + 8) != doc_attr_open() {
            None
        } else {
            let q = quote_end(s, p + 8);
            if q >= s.len() {
                None
            } else {
                let c = ws_start(s, q + 1);
                if c < s.len() && s[c] == ']' {
                    Some((s.subrange(p + 8, q), c + 1))
                } else {
                    None
                }
            }
        }
    }
}

/// The converted text from position `i` on.
pub open spec fn doc_converted_from(s: Seq<char>, i: int) -> Seq<char>
    decreases s.len() - i,
{
    if i < 0 || i >= s.len() {
        Seq::empty()
    } else {
        match doc_attr_at(s, i) {
            Some((content, e)) => if i < e <= s.len() {
                seq!['/', '/', '/'] + content + doc_converted_from(s, e)
            } else {
                Seq::empty()
            },
            None => seq![s[i]] + doc_converted_from(s, i + 1),
        }
    }
}

/// The whole text with every rendered doc attribute converted back into a
/// doc comment.
pub open spec fn doc_converted(s: Seq<char>) -> Seq<char> {
    doc_converted_from(s, 0)
}

/// Bounds of the quote scan.
proof fn lemma_quote_end(s: Seq<char>, i: int)
    requires
        0 <= i <= s.len(),
    ensures
        i <= quote_end(s, i) <= s.len(),
    decreases s.len() - i,
{
    if i < s.len() && s[i] != '"' {
        lemma_quote_end(s, i + 1);
    }
}

/// A recognized doc attribute always ends strictly after it begins, so
/// conversion makes progress.
proof fn lemma_doc_attr_at_bounds(s: Seq<char>, i: int)
    requires
        0 <= i < s.len(),
    ensures
        match doc_attr_at(s, i) {
            Some(r) => i < r.1 <= s.len(),
            None => true,
        },
{
    if s[i] == '#' {
        lemma_ws_start(s, i + 1);
        let p = ws_start(s, i + 1);
        if p + 8 < s.len() {
            lemma_quote_end(s, p + 8);
            let q = quote_end(s, p + 8);
            if q < s.len() {
                lemma_ws_start(s, q + 1);
            }
        }
    }
}

/// One conversion step: the replacement text and where scanning resumes.
pub struct DocConversion {
    pub converted_text: String,
    pub next_position: usize,
}

/// Quoted content of a doc attribute and the position just after the
/// closing quote.
pub struct DocContent {
    pub content: String,
    pub end_position: usize,
}

/// The first position at or after `pos` that does not carry horizontal
/// whitespace; line breaks are not skipped.
fn skip_whitespace_except_newline(chars: &Vec<char>, pos: usize) -> (r: usize)
    requires
        pos <= chars@.len(),
    ensures
        r == ws_start(chars@, pos as int),
        pos <= r <= chars@.len(),
{
    proof {
        lemma_ws_start(chars@, pos as int);
    }
    let mut i: usize = pos;
    while i < chars.len() && (chars[i] == ' ' || chars[i] == '\t' || chars[i] == '\r')
        invariant
            pos <= i <= chars@.len(),
            ws_start(chars@, i as int) == ws_start(chars@, pos as int),
        decreases chars@.len() - i,
    {
        i = i + 1;
    }
    i
}

/// The quoted content from `start` up to the next double quote, and the
/// position after that quote; nothing when the quote never closes.
fn extract_content_until_quote(chars: &Vec<char>, start: usize) -> (r: Option<DocContent>)
    requires
        start <= chars@.len(),
    ensures
        match r {
            Some(dc) => {
                &&& quote_end(chars@, start as int) < chars@.len()
                &&& dc.content@ == chars@.subrange(start as int, quote_end(chars@, start as int))
                &&& dc.end_position == quote_end(chars@, start as int) + 1
            },
            None => quote_end(chars@, start as int) >= chars@.len(),
        },
{
    proof {
        lemma_quote_end(chars@, start as int);
    }
    let mut i: usize = start;
    let mut content: Vec<char> = Vec::new();
    while i < chars.len() && chars[i] != '"'
        invariant
            start <= i <= chars@.len(),
            quote_end(chars@, i as int) == quote_end(chars@, start as int),
            content@ == chars@.subrange(start as int, i as int),
        decreases chars@.len() - i,
    {
        content.push(chars[i]);
        proof {
            assert(chars@.subrange(start as int, i + 1) =~= chars@.subrange(
                start as int,
                i as int,
            ).push(chars@[i as int]));
        }
        i = i + 1;
    }
    if i >= chars.len() {
        None
    } else {
        Some(DocContent { content: chars_to_string(&content), end_position: i + 1 })
    }
}

/// The conversion of the doc attribute starting at `pos`, when the text
/// carries one there.
fn try_convert_doc_attribute(chars: &Vec<char>, pos: usize) -> (r: Option<DocConversion>)
    requires
        pos < chars@.len(),
    ensures
        match r {
            Some(dc) => {
                &&& doc_attr_at(chars@, pos as int) matches Some(a)
                &&& dc.converted_text@ == seq!['/', '/', '/'] + doc_attr_at(
                    chars@,
                    pos as int,
                )->Some_0.0
                &&& dc.next_position as int == doc_attr_at(chars@, pos as int)->Some_0.1
            },
            None => doc_attr_at(chars@, pos as int) is None,
        },
{
    let n = chars.len();
    if chars[pos] != '#' {
        return None;
    }
    let p = skip_whitespace_except_newline(chars, pos + 1);
    if n - p <= 8 {
        return None;
    }
    proof {
        assert(p + 8 < chars@.len());
    }
    if !(chars[p] == '[' && chars[p + 1] == 'd' && chars[p + 2] == 'o' && chars[p + 3] == 'c'
        && chars[p + 4] == ' ' && chars[p + 5] == '=' && chars[p + 6] == ' ' && chars[p + 7]
        == '"') {
        proof {
            if chars@.subrange(p as int, p + 8) == doc_attr_open() {
                assert(chars@[p as int] == '[');
                assert(chars@[p + 1] == 'd');
                assert(chars@[p + 2] == 'o');
                assert(chars@[p + 3] == 'c');
                assert(chars@[p + 4] == ' ');
                assert(chars@[p + 5] == '=');
                assert(chars@[p + 6] == ' ');
                assert(chars@[p + 7] == '"');
            }
        }
        return None;
    }
    proof {
        assert(chars@.subrange(p as int, p + 8) =~= doc_attr_open());
    }
    let extracted = extract_content_until_quote(chars, p + 8);
    match extracted {
        Some(dc) => {
            let c = skip_whitespace_except_newline(chars, dc.end_position);
            if c < chars.len() && chars[c] == ']' {
                proof {
                    reveal_strlit("///");
                }
                let mut converted = crate::text::str_to_string("///");
                proof {
                    assert(converted@ =~= seq!['/', '/', '/']);
                }
                converted.append(dc.content.as_str());
                Some(DocConversion { converted_text: converted, next_position: c + 1 })
            } else {
                None
            }
        },
        None => None,
    }
}

/// Converts every rendered `#[doc = "…"]` attribute of the text back into
/// a `///` doc comment, copying all other characters through unchanged.
pub fn convert_doc_attributes_to_comments(code: &str) -> (r: String)
    ensures
        r@ == doc_converted(code@),
{
    let chars = str_to_chars(code);
    let n = chars.len();
    let mut result = String::new();
    let mut i: usize = 0;
    proof {
        assert(result@ + doc_converted_from(chars@, 0) =~= doc_converted(code@));
    }
    while i < n
        invariant
            i <= n,
            n == chars@.len(),
            chars@ == code@,
            result@ + doc_converted_from(chars@, i as int) == doc_converted(code@),
        decreases n - i,
    {
        let ghost pre = result@;
        proof {
            lemma_doc_attr_at_bounds(chars@, i as int);
        }
        match try_convert_doc_attribute(&chars, i) {
            Some(dc) => {
                result.append(dc.converted_text.as_str());
                proof {
                    let a = doc_attr_at(chars@, i as int)->Some_0;
                    assert(doc_converted_from(chars@, i as int) == (seq!['/', '/', '/'] + a.0)
                        + doc_converted_from(chars@, a.1));
                    assert(result@ + doc_converted_from(chars@, a.1) =~= pre + ((seq![
                        '/',
                        '/',
                        '/',
                    ] + a.0) + doc_converted_from(chars@, a.1)));
                }
                i = dc.next_position;
            },
            None => {
                crate::text::push_char(&mut result, chars[i]);
                proof {
                    assert(doc_converted_from(chars@, i as int) == seq![chars@[i as int]]
                        + doc_converted_from(chars@, i + 1));
                    assert(result@ + doc_converted_from(chars@, i + 1) =~= pre + (seq![
                        chars@[i as int],
                    ] + doc_converted_from(chars@, i + 1)));
                }
                i = i + 1;
            },
        }
    }
    proof {
        assert(doc_converted_from(chars@, n as int) =~= Seq::<char>::empty());
        assert(result@ + Seq::<char>::empty() =~= result@);
    }
    result
}

} // verus!
