//! Derivation of a target file stem from a type identifier.
//!
//! `MyHttpClient` becomes `my_http_client`: an underscore is inserted before
//! an uppercase character exactly when the previous character was lowercase
//! and some output has already been produced, and every uppercase character
//! is replaced by the first character of its lowercase mapping. All other
//! characters pass through unchanged, so the function is total.

use vstd::prelude::*;
use vstd::string::StrSliceExecFns;

use crate::text::push_char;

verus! {

/// Whether a character has the Unicode uppercase property, as
/// `char::is_uppercase` reports it.
pub uninterp spec fn is_upper_char(c: char) -> bool;

/// Whether a character has the Unicode lowercase property, as
/// `char::is_lowercase` reports it.
pub uninterp spec fn is_lower_char(c: char) -> bool;

/// The first character of the Unicode lowercase mapping of a character, as
/// `char::to_lowercase` yields it; the character itself when the mapping is
/// empty.
pub uninterp spec fn lower_char(c: char) -> char;

/// Relies on `char::is_uppercase` from std: true exactly for characters
/// with the Unicode uppercase property. The result depends on the character
/// alone.
#[verifier::external_body]
fn char_is_uppercase(c: char) -> (r: bool)
    ensures
        r == is_upper_char(c),
{
    c.is_uppercase()
}

/// Relies on `char::is_lowercase` from std: true exactly for characters
/// with the Unicode lowercase property. The result depends on the character
/// alone.
#[verifier::external_body]
fn char_is_lowercase(c: char) -> (r: bool)
    ensures
        r == is_lower_char(c),
{
    c.is_lowercase()
}

/// Relies on `char::to_lowercase` from std: the iterator it returns always
/// yields at least one character, and its first character depends on the
/// input character alone.
#[verifier::external_body]
fn char_to_lowercase(c: char) -> (r: char)
    ensures
        r == lower_char(c),
{
    c.to_lowercase().next().unwrap_or(c)
}

/// One step of stem derivation: the output so far, whether the previous
/// character was lowercase, and the next input character give the new
/// output.
pub open spec fn stem_step(acc: Seq<char>, prev_lower: bool, c: char) -> Seq<char> {
    if is_upper_char(c) {
        if prev_lower && acc.len() > 0 {
            acc.push('_').push(lower_char(c))
        } else {
            acc.push(lower_char(c))
        }
    } else {
        acc.push(c)
    }
}

/// Whether the derivation state records a lowercase predecessor after
/// consuming `c`.
pub open spec fn stem_step_prev(c: char) -> bool {
    if is_upper_char(c) {
        false
    } else {
        is_lower_char(c)
    }
}

/// Stem derivation over the suffix of `s` starting at `i`, with output
/// `acc` already produced.
pub open spec fn stem_from(s: Seq<char>, i: int, acc: Seq<char>, prev_lower: bool) -> Seq<char>
    decreases s.len() - i,
{
    if i < 0 || i >= s.len() {
        acc
    } else {
        stem_from(s, i + 1, stem_step(acc, prev_lower, s[i]), stem_step_prev(s[i]))
    }
}

/// The file stem derived from an identifier.
pub open spec fn file_stem(s: Seq<char>) -> Seq<char> {
    stem_from(s, 0, Seq::empty(), false)
}

/// Converts an identifier such as `MyHttpClient` into a lower-case
/// underscore-separated file stem such as `my_http_client`.
pub fn to_file_stem(input: &str) -> (r: String)
    ensures
        r@ == file_stem(input@),
{
    let n = input.unicode_len();
    let mut result = String::new();
    let mut prev_lower = false;
    let mut i: usize = 0;
    while i < n
        invariant
            n == input@.len(),
            i <= n,
            stem_from(input@, i as int, result@, prev_lower) == file_stem(input@),
        decreases n - i,
    {
        let c = input.get_char(i);
        if char_is_uppercase(c) {
            if prev_lower && result.as_str().unicode_len() > 0 {
                push_char(&mut result, '_');
            }
            push_char(&mut result, char_to_lowercase(c));
            prev_lower = false;
        } else {
            push_char(&mut result, c);
            prev_lower = char_is_lowercase(c);
        }
        i = i + 1;
    }
    result
}

/// An input without uppercase characters is returned unchanged, whatever
/// output has been accumulated before it.
proof fn lemma_stem_from_caseless(s: Seq<char>, i: int, acc: Seq<char>, prev_lower: bool)
    requires
        0 <= i <= s.len(),
        forall|j: int| i <= j < s.len() ==> !is_upper_char(s[j]),
    ensures
        stem_from(s, i, acc, prev_lower) == acc + s.subrange(i, s.len() as int),
    decreases s.len() - i,
{
    if i >= s.len() {
        assert(acc + s.subrange(i, s.len() as int) =~= acc);
    } else {
        lemma_stem_from_caseless(s, i + 1, acc.push(s[i]), is_lower_char(s[i]));
        assert(acc.push(s[i]) + s.subrange(i + 1, s.len() as int) =~= acc + s.subrange(
            i,
            s.len() as int,
        ));
    }
}

/// An identifier that contains no uppercase character is its own stem:
/// every character passes through unchanged and no underscore is inserted.
pub proof fn lemma_stem_identity_on_caseless(s: Seq<char>)
    requires
        forall|j: int| 0 <= j < s.len() ==> !is_upper_char(s[j]),
    ensures
        file_stem(s) == s,
{
    lemma_stem_from_caseless(s, 0, Seq::empty(), false);
    assert(Seq::<char>::empty() + s.subrange(0, s.len() as int) =~= s);
}

/// Stem derivation is idempotent whenever the first derivation leaves no
/// uppercase character in its output; in particular a stem that is already
/// in lower-case underscore form is a fixed point.
pub proof fn lemma_stem_idempotent(s: Seq<char>)
    requires
        forall|j: int| 0 <= j < file_stem(s).len() ==> !is_upper_char(file_stem(s)[j]),
    ensures
        file_stem(file_stem(s)) == file_stem(s),
{
    lemma_stem_identity_on_caseless(file_stem(s));
}

} // verus!
