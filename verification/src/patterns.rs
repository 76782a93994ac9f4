//! Regular expressions, and wildcards by way of them.
#![verifier::loop_isolation(false)]

use crate::split::{replace, replaced};
use crate::text::owned;
use vstd::prelude::*;
use vstd::string::*;

verus! {

/// Whether `regex::Regex::new` accepts a pattern.
pub uninterp spec fn regex_compiles(pattern: Seq<char>) -> bool;

/// Whether the regular expression that `regex::Regex::new` makes of a pattern
/// matches somewhere in a text.
pub uninterp spec fn regex_matches(pattern: Seq<char>, text: Seq<char>) -> bool;

/// Whether a character means something in a regular expression.
pub open spec fn is_meta(c: char) -> bool {
    ||| c == '\\' || c == '.' || c == '+' || c == '*' || c == '?' || c == '(' || c == ')'
    ||| c == '|' || c == '[' || c == ']' || c == '{' || c == '}' || c == '^' || c == '$'
    ||| c == '#' || c == '&' || c == '-' || c == '~'
}

/// A text with a backslash before each character that means something in a
/// regular expression.
pub open spec fn regex_escaped(text: Seq<char>) -> Seq<char>
    decreases text.len(),
{
    if text.len() == 0 {
        Seq::empty()
    } else {
        regex_escaped(text.drop_last()) + if is_meta(text.last()) {
            seq!['\\', text.last()]
        } else {
            seq![text.last()]
        }
    }
}

/// Calls `regex::Regex::new`, and hands out `regex::Regex::is_match` of the
/// result. Claimed: whether a pattern is accepted depends on the pattern
/// alone, and whether a text matches on the pattern and the text. The wording
/// of the error is left unsaid.
#[verifier::external_body]
pub(crate) fn compile(pattern: &str) -> (r: Result<impl Fn(&str) -> bool, String>)
    ensures
        match r {
            Ok(f) => {
                &&& regex_compiles(pattern@)
                &&& forall|t: &str| f.requires((t,))
                &&& forall|t: &str, b: bool|
                    f.ensures((t,), b) ==> b == regex_matches(pattern@, t@)
            },
            Err(_) => !regex_compiles(pattern@),
        },
{
    let regex = regex::Regex::new(pattern).map_err(|error| error.to_string())?;
    Ok(move |text: &str| regex.is_match(text))
}

/// Calls `regex::escape`. Claimed: it puts a backslash before each character
/// that means something in a regular expression, and keeps the others.
#[verifier::external_body]
fn escape(text: &str) -> (r: String)
    ensures
        r@ == regex_escaped(text@),
{
    regex::escape(text)
}

/// Whether a text matches a pattern; none matches a pattern that is not
/// accepted.
pub open spec fn accepted_match(pattern: Seq<char>, text: Seq<char>) -> bool {
    regex_compiles(pattern) && regex_matches(pattern, text)
}

/// Whether a text matches a pattern.
pub fn matches_pattern(pattern: &str, text: &str) -> (r: bool)
    ensures
        r == accepted_match(pattern@, text@),
{
    match compile(pattern) {
        Ok(f) => f(text),
        Err(_) => false,
    }
}

/// The pattern in any case.
pub open spec fn any_case(pattern: Seq<char>) -> Seq<char> {
    "(?i)"@ + pattern
}

/// The pattern in any case.
pub fn in_any_case(pattern: &str) -> (r: String)
    ensures
        r@ == any_case(pattern@),
{
    let mut out = owned("(?i)");
    out.append(pattern);
    out
}

/// The regular expression for a wildcard, given its escaped form: a star
/// stands for anything, a question mark for one character, and the whole
/// text must match, in any case.
pub open spec fn wildcard_pattern(escaped: Seq<char>) -> Seq<char> {
    "(?i)^"@ + replaced(replaced(escaped, "\\*"@, ".*"@), "\\?"@, "."@) + "$"@
}

/// The regular expression for a wildcard, given its escaped form.
pub fn wildcard_regex(escaped: &str) -> (r: String)
    ensures
        r@ == wildcard_pattern(escaped@),
{
    let stars = replace(escaped, "\\*", ".*");
    let marks = replace(stars.as_str(), "\\?", ".");
    let mut out = owned("(?i)^");
    out.append(marks.as_str());
    out.append("$");
    out
}

/// Whether a text matches a wildcard.
pub open spec fn wildcard_matches(value: Seq<char>, pattern: Seq<char>) -> bool {
    accepted_match(wildcard_pattern(regex_escaped(pattern)), value)
}

/// Whether a text matches a wildcard.
pub fn wildcard_match(value: &str, pattern: &str) -> (r: bool)
    ensures
        r == wildcard_matches(value@, pattern@),
{
    let regex = wildcard_regex(escape(pattern).as_str());
    matches_pattern(regex.as_str(), value)
}

} // verus!
