//! Letter case: ASCII case in full, Unicode lower case through std.
#![verifier::loop_isolation(false)]

use crate::text::to_chars;
use vstd::prelude::*;

verus! {

/// The ASCII lower case of a character; other characters stay.
pub open spec fn ascii_lower(c: char) -> char {
    if 'A' <= c && c <= 'Z' {
        (c as u32 + 32) as char
    } else {
        c
    }
}

/// The ASCII lower case of a text.
pub open spec fn ascii_lowercase(s: Seq<char>) -> Seq<char> {
    s.map_values(|c: char| ascii_lower(c))
}

/// Whether all characters are ASCII.
pub open spec fn all_ascii(s: Seq<char>) -> bool {
    forall|i: int| 0 <= i < s.len() ==> (#[trigger] s[i] as u32) < 128
}

/// What `str::to_lowercase` returns for a text.
pub uninterp spec fn unicode_lowercase(text: Seq<char>) -> Seq<char>;

/// The lower case of a text: for ASCII texts letter by letter, for others as
/// `str::to_lowercase` gives it.
pub open spec fn lowered(text: Seq<char>) -> Seq<char> {
    if all_ascii(text) {
        ascii_lowercase(text)
    } else {
        unicode_lowercase(text)
    }
}

/// Calls `str::to_lowercase`. Claimed: the result depends on the text alone,
/// and for a text of ASCII characters it maps `A`..`Z` to `a`..`z` and keeps
/// the others.
#[verifier::external_body]
pub(crate) fn to_lowercase(text: &str) -> (r: String)
    ensures
        r@ == if all_ascii(text@) {
            ascii_lowercase(text@)
        } else {
            unicode_lowercase(text@)
        },
{
    text.to_lowercase()
}

/// The ASCII lower case of one character.
pub fn to_ascii_lower(c: char) -> (r: char)
    ensures
        r == ascii_lower(c),
{
    if 'A' <= c && c <= 'Z' {
        let n: u8 = (c as u32 + 32) as u8;
        n as char
    } else {
        c
    }
}

/// The ASCII lower case of a text.
pub fn to_ascii_lowercase(text: &str) -> (r: String)
    ensures
        r@ == ascii_lowercase(text@),
{
    let chars = to_chars(text);
    let mut out = String::new();
    let mut i: usize = 0;
    while i < chars.len()
        invariant
            i <= chars.len(),
            out@ == ascii_lowercase(chars@.take(i as int)),
        decreases chars.len() - i,
    {
        out.push(to_ascii_lower(chars[i]));
        i += 1;
        assert(out@ =~= ascii_lowercase(chars@.take(i as int)));
    }
    assert(chars@.take(chars.len() as int) == chars@);
    out
}

/// Whether two texts are equal up to ASCII case.
pub open spec fn same_ignoring_case(a: Seq<char>, b: Seq<char>) -> bool {
    ascii_lowercase(a) == ascii_lowercase(b)
}

/// Whether two texts are equal up to ASCII case.
pub fn eq_ignore_ascii_case(a: &str, b: &str) -> (r: bool)
    ensures
        r == same_ignoring_case(a@, b@),
{
    let left = to_ascii_lowercase(a);
    let right = to_ascii_lowercase(b);
    left == right
}

/// Whether some token equals `word` up to ASCII case.
pub open spec fn any_ignoring_case(tokens: Seq<Seq<char>>, word: Seq<char>) -> bool {
    exists|i: int| 0 <= i < tokens.len() && same_ignoring_case(#[trigger] tokens[i], word)
}

/// Whether some token equals `word` up to ASCII case.
pub fn contains_ignore_ascii_case(tokens: &Vec<String>, word: &str) -> (r: bool)
    ensures
        r == any_ignoring_case(tokens.deep_view(), word@),
{
    let mut i: usize = 0;
    while i < tokens.len()
        invariant
            i <= tokens.len(),
            forall|j: int|
                0 <= j < i ==> !same_ignoring_case(#[trigger] tokens.deep_view()[j], word@),
        decreases tokens.len() - i,
    {
        if eq_ignore_ascii_case(tokens[i].as_str(), word) {
            assert(same_ignoring_case(tokens.deep_view()[i as int], word@));
            return true;
        }
        i += 1;
    }
    false
}

/// Whether `c` is an ASCII letter or digit.
pub open spec fn ascii_alphanumeric(c: char) -> bool {
    ('0' <= c && c <= '9') || ('A' <= c && c <= 'Z') || ('a' <= c && c <= 'z')
}

/// Whether `c` is an ASCII letter or digit.
pub fn is_ascii_alphanumeric(c: char) -> (r: bool)
    ensures
        r == ascii_alphanumeric(c),
{
    ('0' <= c && c <= '9') || ('A' <= c && c <= 'Z') || ('a' <= c && c <= 'z')
}

/// Whether a text is made of ASCII letters, digits and underscores.
pub open spec fn word_chars(s: Seq<char>) -> bool {
    forall|i: int| 0 <= i < s.len() ==> ascii_alphanumeric(#[trigger] s[i]) || s[i] == '_'
}

/// Whether a text is made of ASCII letters, digits and underscores.
pub fn is_word(text: &str) -> (r: bool)
    ensures
        r == word_chars(text@),
{
    let chars = to_chars(text);
    let mut i: usize = 0;
    while i < chars.len()
        invariant
            i <= chars.len(),
            forall|j: int|
                0 <= j < i ==> ascii_alphanumeric(#[trigger] chars@[j]) || chars@[j] == '_',
        decreases chars.len() - i,
    {
        if !(is_ascii_alphanumeric(chars[i]) || chars[i] == '_') {
            assert(!(ascii_alphanumeric(chars@[i as int]) || chars@[i as int] == '_'));
            return false;
        }
        i += 1;
    }
    true
}

} // verus!
