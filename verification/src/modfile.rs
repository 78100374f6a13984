//! The module-declaration synthesizer.
//!
//! A listing file holds one `mod <stem>;` line per module followed by a
//! blank line and one `pub use <stem>::*;` line per module. When a listing
//! already exists, its declarations are recovered, merged with the new
//! stems, deduplicated and sorted, so no stem is ever dropped.

use vstd::prelude::*;
use vstd::string::StrSliceExecFns;
use vstd::string::StringExecFns;

use crate::order::{sort_module_names, stem_le, strs_view};
use crate::text::{chars_to_string, str_eq, str_to_chars};

verus! {

/// Whether a character is horizontal whitespace: a space, tab or carriage
/// return.
pub open spec fn is_ws(c: char) -> bool {
    c == ' ' || c == '\t' || c == '\r'
}

/// A character sequence without line breaks.
pub open spec fn nl_free(s: Seq<char>) -> bool {
    forall|j: int| 0 <= j < s.len() ==> s[j] != '\n'
}

/// The index of the first line break at or after `i`, or the length when
/// the rest of the sequence has none.
pub open spec fn line_break_from(s: Seq<char>, i: int) -> int
    decreases s.len() - i,
{
    if i < 0 || i >= s.len() {
        s.len() as int
    } else if s[i] == '\n' {
        i
    } else {
        line_break_from(s, i + 1)
    }
}

/// A line with a trailing carriage return loses it.
pub open spec fn strip_cr(line: Seq<char>) -> Seq<char> {
    if line.len() > 0 && line.last() == '\r' {
        line.drop_last()
    } else {
        line
    }
}

/// The lines of a text, split at line breaks, each without a trailing
/// carriage return; a trailing line break opens no empty final line.
pub open spec fn split_lines(s: Seq<char>) -> Seq<Seq<char>>
    decreases s.len(),
{
    if s.len() == 0 {
        Seq::empty()
    } else {
        let k = line_break_from(s, 0);
        if 0 <= k < s.len() {
            seq![strip_cr(s.subrange(0, k))] + split_lines(
                s.subrange(k + 1, s.len() as int),
            )
        } else {
            seq![strip_cr(s)]
        }
    }
}

/// The first index at or after `i` whose character is not horizontal
/// whitespace, or the length.
pub open spec fn ws_start(s: Seq<char>, i: int) -> int
    decreases s.len() - i,
{
    if i < 0 || i >= s.len() {
        s.len() as int
    } else if is_ws(s[i]) {
        ws_start(s, i + 1)
    } else {
        i
    }
}

/// The end of the non-whitespace content strictly before index `i`: the
/// smallest prefix length that drops every trailing whitespace character.
pub open spec fn ws_end(s: Seq<char>, i: int) -> int
    decreases i,
{
    if i <= 0 {
        0
    } else if is_ws(s[i - 1]) {
        ws_end(s, i - 1)
    } else {
        i
    }
}

/// The line without leading and trailing horizontal whitespace.
pub open spec fn trimmed(s: Seq<char>) -> Seq<char> {
    let a = ws_start(s, 0);
    let b = ws_end(s, s.len() as int);
    if a >= b {
        Seq::empty()
    } else {
        s.subrange(a, b)
    }
}

/// The characters of a `mod ` declaration prefix.
pub open spec fn mod_prefix() -> Seq<char> {
    seq!['m', 'o', 'd', ' ']
}

/// The characters of a `pub use ` re-export prefix.
pub open spec fn pub_use_prefix() -> Seq<char> {
    seq!['p', 'u', 'b', ' ', 'u', 's', 'e', ' ']
}

/// The characters closing a re-export line.
pub open spec fn use_suffix() -> Seq<char> {
    seq![':', ':', '*', ';', '\n']
}

/// A semicolon followed by a line break.
pub open spec fn semi_nl() -> Seq<char> {
    seq![';', '\n']
}

/// A single line break.
pub open spec fn nl() -> Seq<char> {
    seq!['\n']
}

/// The stem declared by a listing line: the line is trimmed, and a line of
/// the shape `mod <stem>;` yields its stem; every other line yields
/// nothing.
pub open spec fn stem_of_line(line: Seq<char>) -> Option<Seq<char>> {
    let t = trimmed(line);
    if t.len() > 4 && t.subrange(0, 4) == mod_prefix() && t[t.len() - 1] == ';' {
        Some(t.subrange(4, t.len() - 1))
    } else {
        None
    }
}

/// The stems declared by a sequence of lines, in order.
pub open spec fn parsed_stems(lines: Seq<Seq<char>>) -> Seq<Seq<char>>
    decreases lines.len(),
{
    if lines.len() == 0 {
        Seq::empty()
    } else {
        let rest = parsed_stems(lines.drop_first());
        match stem_of_line(lines[0]) {
            Some(st) => seq![st] + rest,
            None => rest,
        }
    }
}

/// The stems declared by a listing text.
pub open spec fn parse_listing(s: Seq<char>) -> Seq<Seq<char>> {
    parsed_stems(split_lines(s))
}

/// Appends, in order, every stem of `n` from index `i` on that `acc` does
/// not already hold.
pub open spec fn add_missing(acc: Seq<Seq<char>>, n: Seq<Seq<char>>, i: int) -> Seq<Seq<char>>
    decreases n.len() - i,
{
    if i < 0 || i >= n.len() {
        acc
    } else {
        let acc2 = if acc.contains(n[i]) {
            acc
        } else {
            acc.push(n[i])
        };
        add_missing(acc2, n, i + 1)
    }
}

/// The deduplicated, sorted union of existing and new stems.
pub open spec fn combined_stems(existing: Seq<Seq<char>>, new: Seq<Seq<char>>) -> Seq<Seq<char>> {
    add_missing(existing, new, 0).sort_by(stem_le())
}

/// The `mod <stem>;` lines from index `i` on, as one text.
pub open spec fn mod_lines_from(stems: Seq<Seq<char>>, i: int) -> Seq<char>
    decreases stems.len() - i,
{
    if i < 0 || i >= stems.len() {
        Seq::empty()
    } else {
        mod_prefix() + stems[i] + semi_nl() + mod_lines_from(stems, i + 1)
    }
}

/// The `pub use <stem>::*;` lines from index `i` on, as one text.
pub open spec fn use_lines_from(stems: Seq<Seq<char>>, i: int) -> Seq<char>
    decreases stems.len() - i,
{
    if i < 0 || i >= stems.len() {
        Seq::empty()
    } else {
        pub_use_prefix() + stems[i] + use_suffix() + use_lines_from(stems, i + 1)
    }
}

/// A full listing text: the declaration lines, a blank line, and the
/// re-export lines.
pub open spec fn render_listing(stems: Seq<Seq<char>>) -> Seq<char> {
    mod_lines_from(stems, 0) + nl() + use_lines_from(stems, 0)
}

/// What the synthesizer writes: the rendering of the sorted, deduplicated
/// union of the stems recovered from the existing listing text and the new
/// stems.
pub open spec fn listing_output(existing: Seq<char>, new: Seq<Seq<char>>) -> Seq<char> {
    render_listing(combined_stems(parse_listing(existing), new))
}

/// The literal spellings of the listing tokens.
proof fn lemma_listing_literals()
    ensures
        "mod "@ == mod_prefix(),
        "pub use "@ == pub_use_prefix(),
        "::*;\n"@ == use_suffix(),
        ";\n"@ == semi_nl(),
        "\n"@ == nl(),
{
    reveal_strlit("mod ");
    reveal_strlit("pub use ");
    reveal_strlit("::*;\n");
    reveal_strlit(";\n");
    reveal_strlit("\n");
    assert("mod "@ =~= mod_prefix());
    assert("pub use "@ =~= pub_use_prefix());
    assert("::*;\n"@ =~= use_suffix());
    assert(";\n"@ =~= semi_nl());
    assert("\n"@ =~= nl());
}

/// Bounds and characterization of the first line break.
proof fn lemma_line_break_from(s: Seq<char>, i: int)
    requires
        0 <= i <= s.len(),
    ensures
        i <= line_break_from(s, i) <= s.len(),
        line_break_from(s, i) < s.len() ==> s[line_break_from(s, i)] == '\n',
        forall|j: int| i <= j < line_break_from(s, i) ==> s[j] != '\n',
    decreases s.len() - i,
{
    if i < s.len() && s[i] != '\n' {
        lemma_line_break_from(s, i + 1);
    }
}

/// Bounds of the leading-whitespace scan.
pub(crate) proof fn lemma_ws_start(s: Seq<char>, i: int)
    requires
        0 <= i <= s.len(),
    ensures
        i <= ws_start(s, i) <= s.len(),
        ws_start(s, i) < s.len() ==> !is_ws(s[ws_start(s, i)]),
    decreases s.len() - i,
{
    if i < s.len() && is_ws(s[i]) {
        lemma_ws_start(s, i + 1);
    }
}

/// Bounds of the trailing-whitespace scan.
proof fn lemma_ws_end(s: Seq<char>, i: int)
    requires
        0 <= i <= s.len(),
    ensures
        0 <= ws_end(s, i) <= i,
        ws_end(s, i) > 0 ==> !is_ws(s[ws_end(s, i) - 1]),
    decreases i,
{
    if i > 0 && is_ws(s[i - 1]) {
        lemma_ws_end(s, i - 1);
    }
}

/// Decides `is_ws`.
fn is_ws_char(c: char) -> (r: bool)
    ensures
        r == is_ws(c),
{
    c == ' ' || c == '\t' || c == '\r'
}

/// The first line break at or after `from`, or the length.
fn find_line_break(chars: &Vec<char>, from: usize) -> (k: usize)
    requires
        from <= chars@.len(),
    ensures
        k == line_break_from(chars@, from as int),
        from <= k <= chars@.len(),
{
    proof {
        lemma_line_break_from(chars@, from as int);
    }
    let mut i: usize = from;
    while i < chars.len()
        invariant
            from <= i <= chars@.len(),
            line_break_from(chars@, i as int) == line_break_from(chars@, from as int),
            forall|j: int| from <= j < i ==> chars@[j] != '\n',
        decreases chars@.len() - i,
    {
        if chars[i] == '\n' {
            return i;
        }
        i = i + 1;
    }
    i
}

/// A copy of the characters between two indices.
pub(crate) fn subvec(chars: &Vec<char>, a: usize, b: usize) -> (r: Vec<char>)
    requires
        a <= b <= chars@.len(),
    ensures
        r@ == chars@.subrange(a as int, b as int),
{
    let mut r: Vec<char> = Vec::new();
    let mut i: usize = a;
    while i < b
        invariant
            a <= i <= b <= chars@.len(),
            r@ == chars@.subrange(a as int, i as int),
        decreases b - i,
    {
        r.push(chars[i]);
        proof {
            assert(chars@.subrange(a as int, i + 1) =~= chars@.subrange(a as int, i as int).push(
                chars@[i as int],
            ));
        }
        i = i + 1;
    }
    r
}

/// The line without leading and trailing horizontal whitespace.
fn trim_line(line: &Vec<char>) -> (r: Vec<char>)
    ensures
        r@ == trimmed(line@),
{
    proof {
        lemma_ws_start(line@, 0);
        lemma_ws_end(line@, line@.len() as int);
    }
    let n = line.len();
    let mut a: usize = 0;
    while a < n && is_ws_char(line[a])
        invariant
            a <= n,
            n == line@.len(),
            ws_start(line@, a as int) == ws_start(line@, 0),
        decreases n - a,
    {
        a = a + 1;
    }
    let mut b: usize = n;
    while b > 0 && is_ws_char(line[b - 1])
        invariant
            b <= n,
            n == line@.len(),
            ws_end(line@, b as int) == ws_end(line@, n as int),
        decreases b,
    {
        b = b - 1;
    }
    if a >= b {
        proof {
            assert(trimmed(line@) =~= Seq::<char>::empty());
        }
        Vec::new()
    } else {
        subvec(line, a, b)
    }
}

/// The stem declared by one listing line, when it is a `mod` declaration.
fn line_stem(line: &Vec<char>) -> (r: Option<Vec<char>>)
    ensures
        match r {
            Some(st) => stem_of_line(line@) == Some(st@),
            None => stem_of_line(line@) is None,
        },
{
    let t = trim_line(line);
    let n = t.len();
    if n > 4 && t[0] == 'm' && t[1] == 'o' && t[2] == 'd' && t[3] == ' ' && t[n - 1] == ';' {
        proof {
            assert(trimmed(line@).subrange(0, 4) =~= mod_prefix());
        }
        Some(subvec(&t, 4, n - 1))
    } else {
        proof {
            if trimmed(line@).len() > 4 && trimmed(line@)[trimmed(line@).len() - 1] == ';' {
                if trimmed(line@).subrange(0, 4) == mod_prefix() {
                    assert(trimmed(line@)[0] == 'm');
                    assert(trimmed(line@)[1] == 'o');
                    assert(trimmed(line@)[2] == 'd');
                    assert(trimmed(line@)[3] == ' ');
                }
            }
        }
        None
    }
}

/// Splitting at the first of two glued texts whose boundary is a line
/// break: the first line is the first text, the rest splits on its own.
proof fn lemma_split_cons(line: Seq<char>, rest: Seq<char>)
    requires
        nl_free(line),
    ensures
        split_lines(line + nl() + rest) == seq![strip_cr(line)] + split_lines(rest),
{
    let s = line + nl() + rest;
    assert(s.len() == line.len() + 1 + rest.len());
    assert(s[line.len() as int] == '\n');
    lemma_line_break_from(s, 0);
    let k = line_break_from(s, 0);
    assert forall|j: int| 0 <= j < line.len() implies s[j] != '\n' by {
        assert(s[j] == line[j]);
    }
    if k < line.len() {
        assert(s[k] == line[k]);
        assert(false);
    }
    if k > line.len() {
        assert(s[line.len() as int] != '\n');
        assert(false);
    }
    assert(k == line.len());
    assert(0 <= k < s.len());
    assert(s.subrange(0, k) =~= line);
    assert(s.subrange(k + 1, s.len() as int) =~= rest);
}

/// A non-empty text without line breaks is one single line.
proof fn lemma_split_single(line: Seq<char>)
    requires
        line.len() > 0,
        nl_free(line),
    ensures
        split_lines(line) == seq![strip_cr(line)],
{
    lemma_line_break_from(line, 0);
    let k = line_break_from(line, 0);
    if k < line.len() {
        assert(line[k] == '\n');
        assert(false);
    }
}

/// Parsing distributes over concatenation of line sequences.
proof fn lemma_parsed_stems_concat(a: Seq<Seq<char>>, b: Seq<Seq<char>>)
    ensures
        parsed_stems(a + b) == parsed_stems(a) + parsed_stems(b),
    decreases a.len(),
{
    if a.len() == 0 {
        assert(a + b =~= b);
        assert(Seq::<Seq<char>>::empty() + parsed_stems(b) =~= parsed_stems(b));
        assert(parsed_stems(a) =~= Seq::<Seq<char>>::empty());
    } else {
        lemma_parsed_stems_concat(a.drop_first(), b);
        assert((a + b).drop_first() =~= a.drop_first() + b);
        assert((a + b)[0] == a[0]);
        match stem_of_line(a[0]) {
            Some(st) => {
                assert(seq![st] + (parsed_stems(a.drop_first()) + parsed_stems(b)) =~= (seq![st]
                    + parsed_stems(a.drop_first())) + parsed_stems(b));
            },
            None => {},
        }
    }
}

/// The text of one `mod` declaration line, without its line break.
pub open spec fn mod_line_text(st: Seq<char>) -> Seq<char> {
    mod_prefix() + st + seq![';']
}

/// The text of one re-export line, without its line break.
pub open spec fn use_line_text(st: Seq<char>) -> Seq<char> {
    pub_use_prefix() + st + seq![':', ':', '*', ';']
}

/// The declaration lines from index `i` on, as a sequence of lines.
pub open spec fn mod_line_texts(stems: Seq<Seq<char>>, i: int) -> Seq<Seq<char>>
    decreases stems.len() - i,
{
    if i < 0 || i >= stems.len() {
        Seq::empty()
    } else {
        seq![mod_line_text(stems[i])] + mod_line_texts(stems, i + 1)
    }
}

/// The re-export lines from index `i` on, as a sequence of lines.
pub open spec fn use_line_texts(stems: Seq<Seq<char>>, i: int) -> Seq<Seq<char>>
    decreases stems.len() - i,
{
    if i < 0 || i >= stems.len() {
        Seq::empty()
    } else {
        seq![use_line_text(stems[i])] + use_line_texts(stems, i + 1)
    }
}

/// Every line produced by splitting is free of line breaks.
proof fn lemma_split_lines_nl_free(s: Seq<char>)
    ensures
        forall|k: int| 0 <= k < split_lines(s).len() ==> nl_free(#[trigger] split_lines(s)[k]),
    decreases s.len(),
{
    if s.len() == 0 {
    } else {
        lemma_line_break_from(s, 0);
        let k = line_break_from(s, 0);
        if 0 <= k < s.len() {
            let line = s.subrange(0, k);
            assert(nl_free(line));
            assert(nl_free(strip_cr(line)));
            let rest = s.subrange(k + 1, s.len() as int);
            lemma_split_lines_nl_free(rest);
            let lines = seq![strip_cr(line)] + split_lines(rest);
            assert forall|p: int| 0 <= p < lines.len() implies nl_free(#[trigger] lines[p]) by {
                if p > 0 {
                    assert(lines[p] == split_lines(rest)[p - 1]);
                }
            }
        } else {
            assert(nl_free(s));
            assert(nl_free(strip_cr(s)));
        }
    }
}

/// A stem declared by a line without line breaks has none either.
proof fn lemma_stem_of_line_nl_free(line: Seq<char>)
    requires
        nl_free(line),
    ensures
        match stem_of_line(line) {
            Some(st) => nl_free(st),
            None => true,
        },
{
    let t = trimmed(line);
    lemma_ws_start(line, 0);
    lemma_ws_end(line, line.len() as int);
    let a = ws_start(line, 0);
    let b = ws_end(line, line.len() as int);
    if a < b {
        assert(forall|j: int| 0 <= j < t.len() ==> t[j] == line[a + j]);
        assert(nl_free(t));
    } else {
        assert(t.len() == 0);
    }
    match stem_of_line(line) {
        Some(st) => {
            assert(forall|j: int| 0 <= j < st.len() ==> st[j] == t[4 + j]);
            assert(nl_free(st));
        },
        None => {},
    }
}

/// Every stem recovered from lines without line breaks has none either.
proof fn lemma_parsed_stems_nl_free(lines: Seq<Seq<char>>)
    requires
        forall|k: int| 0 <= k < lines.len() ==> nl_free(#[trigger] lines[k]),
    ensures
        forall|k: int| 0 <= k < parsed_stems(lines).len() ==> nl_free(
            #[trigger] parsed_stems(lines)[k],
        ),
    decreases lines.len(),
{
    if lines.len() > 0 {
        assert(forall|k: int|
            0 <= k < lines.drop_first().len() ==> lines.drop_first()[k] == lines[k + 1]);
        lemma_parsed_stems_nl_free(lines.drop_first());
        lemma_stem_of_line_nl_free(lines[0]);
        let rest = parsed_stems(lines.drop_first());
        match stem_of_line(lines[0]) {
            Some(st) => {
                let all = seq![st] + rest;
                assert forall|k: int| 0 <= k < all.len() implies nl_free(#[trigger] all[k]) by {
                    if k > 0 {
                        assert(all[k] == rest[k - 1]);
                    }
                }
            },
            None => {},
        }
    }
}

/// Every stem recovered from a listing text is free of line breaks.
proof fn lemma_parse_listing_nl_free(s: Seq<char>)
    ensures
        forall|k: int| 0 <= k < parse_listing(s).len() ==> nl_free(
            #[trigger] parse_listing(s)[k],
        ),
{
    lemma_split_lines_nl_free(s);
    lemma_parsed_stems_nl_free(split_lines(s));
}

/// A rendered declaration line declares exactly its stem.
proof fn lemma_mod_line_stem(st: Seq<char>)
    ensures
        stem_of_line(mod_line_text(st)) == Some(st),
{
    let line = mod_line_text(st);
    assert(line.len() == st.len() + 5);
    assert(line[0] == 'm');
    assert(!is_ws(line[0]));
    assert(ws_start(line, 0) == 0);
    assert(line[line.len() - 1] == ';');
    assert(!is_ws(line[line.len() - 1]));
    assert(ws_end(line, line.len() as int) == line.len());
    let t = trimmed(line);
    assert(t =~= line);
    assert(t.subrange(0, 4) =~= mod_prefix());
    assert(t.subrange(4, t.len() - 1) =~= st);
}

/// A rendered re-export line declares no stem.
proof fn lemma_use_line_stem(st: Seq<char>)
    ensures
        stem_of_line(use_line_text(st)) is None,
{
    let line = use_line_text(st);
    assert(line.len() == st.len() + 12);
    assert(line[0] == 'p');
    assert(!is_ws(line[0]));
    assert(ws_start(line, 0) == 0);
    assert(line[line.len() - 1] == ';');
    assert(!is_ws(line[line.len() - 1]));
    assert(ws_end(line, line.len() as int) == line.len());
    let t = trimmed(line);
    assert(t =~= line);
    if t.subrange(0, 4) == mod_prefix() {
        assert(t.subrange(0, 4)[0] == 'p');
        assert(mod_prefix()[0] == 'm');
        assert(false);
    }
}

/// A blank line declares no stem.
proof fn lemma_empty_line_stem()
    ensures
        stem_of_line(Seq::<char>::empty()) is None,
{
    assert(trimmed(Seq::<char>::empty()).len() == 0);
}

/// Splitting the rendered declaration block peels one line per stem.
proof fn lemma_split_mod_lines(stems: Seq<Seq<char>>, i: int, tail: Seq<char>)
    requires
        0 <= i <= stems.len(),
        forall|k: int| 0 <= k < stems.len() ==> nl_free(#[trigger] stems[k]),
    ensures
        split_lines(mod_lines_from(stems, i) + tail) == mod_line_texts(stems, i) + split_lines(
            tail,
        ),
    decreases stems.len() - i,
{
    if i >= stems.len() {
        assert(mod_lines_from(stems, i) + tail =~= tail);
        assert(mod_line_texts(stems, i) + split_lines(tail) =~= split_lines(tail));
    } else {
        lemma_split_mod_lines(stems, i + 1, tail);
        let line = mod_line_text(stems[i]);
        let rest = mod_lines_from(stems, i + 1) + tail;
        assert(nl_free(line)) by {
            assert(forall|j: int| 0 <= j < stems[i].len() ==> line[4 + j] == stems[i][j]);
        }
        assert(mod_lines_from(stems, i) + tail =~= line + nl() + rest);
        lemma_split_cons(line, rest);
        assert(strip_cr(line) == line);
        assert(seq![line] + (mod_line_texts(stems, i + 1) + split_lines(tail)) =~= (seq![line]
            + mod_line_texts(stems, i + 1)) + split_lines(tail));
    }
}

/// Splitting the rendered re-export block peels one line per stem.
proof fn lemma_split_use_lines(stems: Seq<Seq<char>>, i: int)
    requires
        0 <= i <= stems.len(),
        forall|k: int| 0 <= k < stems.len() ==> nl_free(#[trigger] stems[k]),
    ensures
        split_lines(use_lines_from(stems, i)) == use_line_texts(stems, i),
    decreases stems.len() - i,
{
    if i >= stems.len() {
        assert(split_lines(use_lines_from(stems, i)) =~= Seq::<Seq<char>>::empty());
        assert(use_line_texts(stems, i) =~= Seq::<Seq<char>>::empty());
    } else {
        lemma_split_use_lines(stems, i + 1);
        let line = use_line_text(stems[i]);
        let rest = use_lines_from(stems, i + 1);
        assert(nl_free(line)) by {
            assert(forall|j: int| 0 <= j < stems[i].len() ==> line[8 + j] == stems[i][j]);
        }
        assert(use_lines_from(stems, i) =~= line + nl() + rest);
        lemma_split_cons(line, rest);
        assert(strip_cr(line) == line);
        assert(split_lines(use_lines_from(stems, i)) =~= seq![line] + use_line_texts(
            stems,
            i + 1,
        ));
    }
}

/// Parsing the rendered declaration lines recovers the stems.
proof fn lemma_parsed_mod_texts(stems: Seq<Seq<char>>, i: int)
    requires
        0 <= i <= stems.len(),
    ensures
        parsed_stems(mod_line_texts(stems, i)) == stems.subrange(i, stems.len() as int),
    decreases stems.len() - i,
{
    if i >= stems.len() {
        assert(stems.subrange(i, stems.len() as int) =~= Seq::<Seq<char>>::empty());
    } else {
        lemma_parsed_mod_texts(stems, i + 1);
        lemma_mod_line_stem(stems[i]);
        let lines = mod_line_texts(stems, i);
        assert(lines.drop_first() =~= mod_line_texts(stems, i + 1));
        assert(lines[0] == mod_line_text(stems[i]));
        assert(seq![stems[i]] + stems.subrange(i + 1, stems.len() as int) =~= stems.subrange(
            i,
            stems.len() as int,
        ));
    }
}

/// Parsing the rendered re-export lines recovers nothing.
proof fn lemma_parsed_use_texts(stems: Seq<Seq<char>>, i: int)
    requires
        0 <= i <= stems.len(),
    ensures
        parsed_stems(use_line_texts(stems, i)) == Seq::<Seq<char>>::empty(),
    decreases stems.len() - i,
{
    if i < stems.len() {
        lemma_parsed_use_texts(stems, i + 1);
        lemma_use_line_stem(stems[i]);
        let lines = use_line_texts(stems, i);
        assert(lines.drop_first() =~= use_line_texts(stems, i + 1));
        assert(lines[0] == use_line_text(stems[i]));
    }
}

/// Parsing a rendered listing recovers exactly the stems it was rendered
/// from, as long as no stem carries a line break.
proof fn lemma_parse_of_render(stems: Seq<Seq<char>>)
    requires
        forall|k: int| 0 <= k < stems.len() ==> nl_free(#[trigger] stems[k]),
    ensures
        parse_listing(render_listing(stems)) == stems,
{
    let tail = nl() + use_lines_from(stems, 0);
    assert(render_listing(stems) =~= mod_lines_from(stems, 0) + tail);
    lemma_split_mod_lines(stems, 0, tail);
    assert(tail =~= Seq::<char>::empty() + nl() + use_lines_from(stems, 0));
    lemma_split_cons(Seq::<char>::empty(), use_lines_from(stems, 0));
    lemma_split_use_lines(stems, 0);
    assert(strip_cr(Seq::<char>::empty()) =~= Seq::<char>::empty());
    let blank_and_uses = seq![Seq::<char>::empty()] + use_line_texts(stems, 0);
    assert(split_lines(render_listing(stems)) == mod_line_texts(stems, 0) + blank_and_uses);
    lemma_parsed_stems_concat(mod_line_texts(stems, 0), blank_and_uses);
    lemma_parsed_mod_texts(stems, 0);
    lemma_empty_line_stem();
    assert(blank_and_uses.drop_first() =~= use_line_texts(stems, 0));
    assert(blank_and_uses[0] == Seq::<char>::empty());
    lemma_parsed_use_texts(stems, 0);
    assert(parsed_stems(blank_and_uses) =~= Seq::<Seq<char>>::empty());
    assert(stems.subrange(0, stems.len() as int) =~= stems);
    assert(parse_listing(render_listing(stems)) =~= stems);
}

/// Merging keeps every stem already present and reaches every new one.
proof fn lemma_add_missing_superset(acc: Seq<Seq<char>>, n: Seq<Seq<char>>, i: int)
    requires
        0 <= i <= n.len(),
    ensures
        forall|x: Seq<char>| acc.contains(x) ==> add_missing(acc, n, i).contains(x),
        forall|j: int| i <= j < n.len() ==> add_missing(acc, n, i).contains(#[trigger] n[j]),
    decreases n.len() - i,
{
    if i < n.len() {
        let acc2 = if acc.contains(n[i]) {
            acc
        } else {
            acc.push(n[i])
        };
        assert forall|x: Seq<char>| acc.contains(x) implies acc2.contains(x) by {
            let k = choose|k: int| 0 <= k < acc.len() && acc[k] == x;
            assert(acc2[k] == x);
        }
        assert(acc2.contains(n[i])) by {
            if !acc.contains(n[i]) {
                assert(acc2[acc.len() as int] == n[i]);
            }
        }
        lemma_add_missing_superset(acc2, n, i + 1);
    }
}

/// Every merged stem was already present or is one of the new ones.
proof fn lemma_add_missing_provenance(acc: Seq<Seq<char>>, n: Seq<Seq<char>>, i: int)
    requires
        0 <= i <= n.len(),
    ensures
        forall|x: Seq<char>| add_missing(acc, n, i).contains(x) ==> acc.contains(x) || n.contains(
            x,
        ),
    decreases n.len() - i,
{
    if i < n.len() {
        let acc2 = if acc.contains(n[i]) {
            acc
        } else {
            acc.push(n[i])
        };
        lemma_add_missing_provenance(acc2, n, i + 1);
        assert forall|x: Seq<char>| acc2.contains(x) implies acc.contains(x) || n.contains(x) by {
            let k = choose|k: int| 0 <= k < acc2.len() && acc2[k] == x;
            if k < acc.len() {
                assert(acc[k] == x);
            } else {
                assert(x == n[i]);
            }
        }
    }
}

/// Merging stems that are all already present changes nothing.
proof fn lemma_add_missing_noop(acc: Seq<Seq<char>>, n: Seq<Seq<char>>, i: int)
    requires
        0 <= i <= n.len(),
        forall|j: int| i <= j < n.len() ==> acc.contains(#[trigger] n[j]),
    ensures
        add_missing(acc, n, i) == acc,
    decreases n.len() - i,
{
    if i < n.len() {
        lemma_add_missing_noop(acc, n, i + 1);
    }
}

/// Sorting keeps exactly the same stems.
proof fn lemma_sort_same_elements(s: Seq<Seq<char>>)
    ensures
        forall|x: Seq<char>| s.sort_by(stem_le()).contains(x) == s.contains(x),
{
    broadcast use vstd::seq_lib::group_to_multiset_ensures;

    crate::order::lemma_stem_le_total_ordering();
    s.lemma_sort_by_ensures(stem_le());
    assert forall|x: Seq<char>| s.sort_by(stem_le()).contains(x) == s.contains(x) by {
        assert(s.to_multiset() =~= s.sort_by(stem_le()).to_multiset());
        assert(s.contains(x) <==> s.to_multiset().count(x) > 0);
        assert(s.sort_by(stem_le()).contains(x) <==> s.sort_by(stem_le()).to_multiset().count(x)
            > 0);
    }
}

/// Sorting an already sorted sequence changes nothing.
proof fn lemma_sort_of_sorted(s: Seq<Seq<char>>)
    requires
        vstd::relations::sorted_by(s, stem_le()),
    ensures
        s.sort_by(stem_le()) == s,
{
    crate::order::lemma_stem_le_total_ordering();
    s.lemma_sort_by_ensures(stem_le());
    vstd::seq_lib::lemma_sorted_unique(s, s.sort_by(stem_le()), stem_le());
}

/// The synthesizer is idempotent: running it again, with the same new
/// stems, on its own prior output yields that output unchanged. The sorted,
/// deduplicated union is a fixed point, so nothing is added, dropped or
/// reordered by a second run. Stems do not contain line breaks; a stem
/// with one could not survive the round trip through the listing text.
pub proof fn lemma_synthesis_idempotent(existing: Seq<char>, new: Seq<Seq<char>>)
    requires
        forall|i: int| 0 <= i < new.len() ==> nl_free(#[trigger] new[i]),
    ensures
        listing_output(listing_output(existing, new), new) == listing_output(existing, new),
{
    let e0 = parse_listing(existing);
    let m0 = add_missing(e0, new, 0);
    let m = m0.sort_by(stem_le());
    let out = render_listing(m);
    lemma_parse_listing_nl_free(existing);
    lemma_sort_same_elements(m0);
    lemma_add_missing_provenance(e0, new, 0);
    assert forall|k: int| 0 <= k < m.len() implies nl_free(#[trigger] m[k]) by {
        assert(m.contains(m[k]));
        assert(m0.contains(m[k]));
        if e0.contains(m[k]) {
            let j = choose|j: int| 0 <= j < e0.len() && e0[j] == m[k];
            assert(nl_free(e0[j]));
        } else {
            assert(new.contains(m[k]));
            let j = choose|j: int| 0 <= j < new.len() && new[j] == m[k];
            assert(nl_free(new[j]));
        }
    }
    lemma_parse_of_render(m);
    assert(parse_listing(out) == m);
    lemma_add_missing_superset(e0, new, 0);
    assert forall|j: int| 0 <= j < new.len() implies m.contains(#[trigger] new[j]) by {
        assert(m0.contains(new[j]));
    }
    lemma_add_missing_noop(m, new, 0);
    crate::order::lemma_stem_le_total_ordering();
    m0.lemma_sort_by_ensures(stem_le());
    lemma_sort_of_sorted(m);
    assert(listing_output(out, new) == out);
}

/// Recovers the declared module stems from an existing listing text.
pub fn parse_module_declarations(content: &str) -> (r: Vec<String>)
    ensures
        strs_view(r@) == parse_listing(content@),
{
    let chars = str_to_chars(content);
    let n = chars.len();
    let mut r: Vec<String> = Vec::new();
    let mut i: usize = 0;
    proof {
        assert(chars@.subrange(0, n as int) =~= chars@);
        assert(strs_view(r@) =~= Seq::<Seq<char>>::empty());
        assert(strs_view(r@) + parsed_stems(split_lines(chars@.subrange(i as int, n as int)))
            =~= parse_listing(content@));
    }
    while i < n
        invariant
            i <= n,
            n == chars@.len(),
            chars@ == content@,
            strs_view(r@) + parsed_stems(split_lines(chars@.subrange(i as int, n as int)))
                == parse_listing(content@),
        decreases n - i,
    {
        let ghost rem = chars@.subrange(i as int, n as int);
        let k = find_line_break(&chars, i);
        let mut line = subvec(&chars, i, k);
        if line.len() > 0 && line[line.len() - 1] == '\r' {
            line.pop();
            proof {
                assert(line@ =~= strip_cr(chars@.subrange(i as int, k as int)));
            }
        }
        proof {
            assert(line@ == strip_cr(chars@.subrange(i as int, k as int)));
        }
        let ghost next = if k < n {
            chars@.subrange(k + 1, n as int)
        } else {
            Seq::<char>::empty()
        };
        proof {
            lemma_line_break_from(chars@, i as int);
            let linefull = chars@.subrange(i as int, k as int);
            assert(nl_free(linefull));
            if k < n {
                assert(rem =~= linefull + nl() + chars@.subrange(k + 1, n as int));
                lemma_split_cons(linefull, chars@.subrange(k + 1, n as int));
                assert(split_lines(rem) == seq![strip_cr(linefull)] + split_lines(next));
            } else {
                assert(rem =~= linefull);
                assert(rem.len() > 0);
                lemma_split_single(rem);
                assert(split_lines(next) =~= Seq::<Seq<char>>::empty());
                assert(seq![strip_cr(linefull)] + split_lines(next) =~= seq![strip_cr(linefull)]);
                assert(split_lines(rem) == seq![strip_cr(linefull)] + split_lines(next));
            }
            let lines = seq![strip_cr(linefull)] + split_lines(next);
            assert(lines.drop_first() =~= split_lines(next));
            assert(lines[0] == strip_cr(linefull));
        }
        match line_stem(&line) {
            Some(st) => {
                let stem = chars_to_string(&st);
                r.push(stem);
                proof {
                    assert(strs_view(r@) =~= strs_view(r@.drop_last()).push(st@));
                    assert(strs_view(r@.drop_last()).push(st@) + parsed_stems(split_lines(next))
                        =~= strs_view(r@.drop_last()) + (seq![st@] + parsed_stems(
                        split_lines(next),
                    )));
                }
            },
            None => {},
        }
        if k < n {
            i = k + 1;
        } else {
            i = n;
            proof {
                assert(chars@.subrange(i as int, n as int).len() == 0);
            }
        }
    }
    proof {
        assert(chars@.subrange(n as int, n as int).len() == 0);
        assert(parsed_stems(split_lines(chars@.subrange(n as int, n as int)))
            =~= Seq::<Seq<char>>::empty());
        assert(strs_view(r@) + Seq::<Seq<char>>::empty() =~= strs_view(r@));
    }
    r
}

/// Whether the list already holds the given name.
fn contains_name(names: &Vec<String>, x: &str) -> (r: bool)
    ensures
        r == strs_view(names@).contains(x@),
{
    let mut i: usize = 0;
    while i < names.len()
        invariant
            i <= names@.len(),
            forall|k: int| 0 <= k < i ==> strs_view(names@)[k] != x@,
        decreases names@.len() - i,
    {
        if str_eq(names[i].as_str(), x) {
            proof {
                assert(strs_view(names@)[i as int] == x@);
            }
            return true;
        }
        i = i + 1;
    }
    proof {
        if strs_view(names@).contains(x@) {
            let j = choose|j: int|
                0 <= j < strs_view(names@).len() && strs_view(names@)[j] == x@;
            assert(strs_view(names@)[j] != x@);
        }
    }
    false
}

/// Merges existing and new module names: every new name not already
/// present is appended, and the result is sorted; no name is dropped.
pub fn combine_module_lists(existing: Vec<String>, new: Vec<String>) -> (r: Vec<String>)
    ensures
        strs_view(r@) == combined_stems(strs_view(existing@), strs_view(new@)),
{
    let ghost ev = strs_view(existing@);
    let ghost nv = strs_view(new@);
    let mut combined = existing;
    let mut i: usize = 0;
    while i < new.len()
        invariant
            i <= new@.len(),
            nv == strs_view(new@),
            nv.len() == new@.len(),
            add_missing(strs_view(combined@), nv, i as int) == add_missing(ev, nv, 0),
        decreases new@.len() - i,
    {
        let ghost cv = strs_view(combined@);
        if !contains_name(&combined, new[i].as_str()) {
            combined.push(new[i].clone());
            proof {
                assert(strs_view(combined@) =~= cv.push(nv[i as int]));
            }
        }
        i = i + 1;
    }
    sort_module_names(combined)
}

/// Renders a listing text for the given module stems: one declaration
/// line per stem, a blank line, then one re-export line per stem.
pub fn render_module_listing(modules: &Vec<String>) -> (r: String)
    ensures
        r@ == render_listing(strs_view(modules@)),
{
    proof {
        lemma_listing_literals();
    }
    let ghost mv = strs_view(modules@);
    let mut out = String::new();
    let mut i: usize = 0;
    proof {
        assert(out@ + mod_lines_from(mv, 0) =~= mod_lines_from(mv, 0));
    }
    while i < modules.len()
        invariant
            i <= modules@.len(),
            mv == strs_view(modules@),
            mv.len() == modules@.len(),
            out@ + mod_lines_from(mv, i as int) == mod_lines_from(mv, 0),
        decreases modules@.len() - i,
    {
        let ghost pre = out@;
        out.append("mod ");
        out.append(modules[i].as_str());
        out.append(";\n");
        proof {
            lemma_listing_literals();
            assert(out@ =~= pre + (mod_prefix() + mv[i as int] + semi_nl()));
            assert(out@ + mod_lines_from(mv, i + 1) =~= pre + (mod_prefix() + mv[i as int]
                + semi_nl() + mod_lines_from(mv, i + 1)));
        }
        i = i + 1;
    }
    out.append("\n");
    let ghost mid = out@;
    proof {
        lemma_listing_literals();
        assert(mid =~= mod_lines_from(mv, 0) + nl());
        assert(mid + use_lines_from(mv, 0) =~= mod_lines_from(mv, 0) + nl() + use_lines_from(
            mv,
            0,
        ));
    }
    let mut j: usize = 0;
    while j < modules.len()
        invariant
            j <= modules@.len(),
            mv == strs_view(modules@),
            mv.len() == modules@.len(),
            out@ + use_lines_from(mv, j as int) == mod_lines_from(mv, 0) + nl() + use_lines_from(
                mv,
                0,
            ),
        decreases modules@.len() - j,
    {
        let ghost pre = out@;
        out.append("pub use ");
        out.append(modules[j].as_str());
        out.append("::*;\n");
        proof {
            lemma_listing_literals();
            assert(out@ =~= pre + (pub_use_prefix() + mv[j as int] + use_suffix()));
            assert(out@ + use_lines_from(mv, j + 1) =~= pre + (pub_use_prefix() + mv[j as int]
                + use_suffix() + use_lines_from(mv, j + 1)));
        }
        j = j + 1;
    }
    proof {
        assert(out@ + Seq::<char>::empty() =~= out@);
    }
    out
}

/// Builds the listing text for a directory: the stems recovered from the
/// existing listing, if one is given, are merged with the new stems, and
/// the union — no stem dropped, none duplicated — is rendered sorted.
pub fn synthesize_module_listing(existing: Option<&str>, new_modules: &Vec<String>) -> (r: String)
    ensures
        r@ == listing_output(
            match existing {
                Some(e) => e@,
                None => Seq::empty(),
            },
            strs_view(new_modules@),
        ),
{
    let old_modules = match existing {
        Some(e) => parse_module_declarations(e),
        None => {
            proof {
                assert(split_lines(Seq::<char>::empty()) =~= Seq::<Seq<char>>::empty());
                assert(parse_listing(Seq::<char>::empty()) =~= Seq::<Seq<char>>::empty());
                assert(strs_view(Seq::<String>::empty()) =~= Seq::<Seq<char>>::empty());
            }
            Vec::new()
        },
    };
    let mut new_copy: Vec<String> = Vec::new();
    let mut i: usize = 0;
    while i < new_modules.len()
        invariant
            i <= new_modules@.len(),
            strs_view(new_copy@) == strs_view(new_modules@.subrange(0, i as int)),
        decreases new_modules@.len() - i,
    {
        new_copy.push(new_modules[i].clone());
        proof {
            assert(strs_view(new_copy@) =~= strs_view(new_modules@.subrange(0, i as int)).push(
                new_modules@[i as int]@,
            ));
            assert(strs_view(new_modules@.subrange(0, i + 1)) =~= strs_view(
                new_modules@.subrange(0, i as int),
            ).push(new_modules@[i as int]@));
        }
        i = i + 1;
    }
    proof {
        assert(new_modules@.subrange(0, new_modules@.len() as int) =~= new_modules@);
    }
    let merged = combine_module_lists(old_modules, new_copy);
    render_module_listing(&merged)
}

} // verus!
