//! Small scripts: assignments of literals, and one chain of conditions on
//! what exists, with fast operations in its branches.
#![verifier::loop_isolation(false)]

use super::arguments::{
    after_colon, colon_value, get_token, is_path_colon_option, is_path_option, path_colon_option,
    path_option, token_at, tokens_left,
};
use super::classify::{
    dynamic, first_name, has_dynamic_or_unsafe_constructs, is_mutating_command,
    is_valid_powershell_ast, mutating, push_segment, read_segment, segment_of, segment_view_of,
    valid_powershell,
};
use super::commands::view_of;
use super::operation::{
    branch_view, branches_view, condition_view, segments_view, BranchView,
    ConditionView, FastOperation, FastSegment, MiniBranch, MiniCondition, MiniScript,
    OperationView, SegmentView, TestPathType,
};
use super::words::{
    any_empty, has_empty, next_quote, normalize_command_name, quote_after, tokenize,
    tokens_of,
};
use crate::case::{
    ascii_lowercase, eq_ignore_ascii_case, is_word, same_ignoring_case, to_ascii_lowercase,
    word_chars,
};
use crate::split::{join, joined, split_at_first, split_once};
use crate::text::{
    contains, contains_char, ends_char, ends_with_char, has_text, is_whitespace, leading,
    lemma_leading, lemma_trim_bounds, occurs_at, chars_match_at, option_str, owned, push_item, same,
    starts_char, starts_with_char, text_range, to_chars, trim, trim_start,
    trim_start_class, trimmed, trimmed_start, whitespace, CharClass,
};
use vstd::prelude::*;
use vstd::string::*;

verus! {

// Words of the language.

/// Whether a text starts with a keyword, after white space and in any case,
/// that ends with the text, or before white space, a parenthesis or a brace.
pub open spec fn keyword_start(value: Seq<char>, keyword: Seq<char>) -> bool {
    let t = trimmed_start(value, CharClass::Space);
    let n = keyword.len() as int;
    &&& t.len() >= n
    &&& same_ignoring_case(t.take(n), keyword)
    &&& (t.len() > n ==> whitespace(t[n]) || t[n] == '(' || t[n] == '{')
}

/// Whether a text starts with a keyword.
pub fn starts_with_keyword(value: &str, keyword: &str) -> (r: bool)
    ensures
        r == keyword_start(value@, keyword@),
{
    let chars = to_chars(trim_start(value).as_str());
    let n = keyword.unicode_len();
    if chars.len() < n {
        return false;
    }
    let head = text_range(&chars, 0, n);
    assert(head@ =~= chars@.take(n as int));
    if !eq_ignore_ascii_case(head.as_str(), keyword) {
        return false;
    }
    chars.len() == n || is_whitespace(chars[n]) || chars[n] == '(' || chars[n] == '{'
}

/// Whether a text is the name of a variable: a dollar sign and a word.
pub open spec fn simple_variable(value: Seq<char>) -> bool {
    starts_char(value, '$') && value.len() > 1 && word_chars(value.skip(1))
}

/// Whether a text is the name of a variable.
pub fn is_simple_variable(value: &str) -> (r: bool)
    ensures
        r == simple_variable(value@),
{
    let chars = to_chars(value);
    if chars.len() < 2 || chars[0] != '$' {
        return false;
    }
    let name = text_range(&chars, 1, chars.len());
    assert(name@ =~= value@.skip(1));
    is_word(name.as_str())
}

/// Whether a literal holds what is not taken literally.
pub open spec fn unsupported_literal(value: Seq<char>) -> bool {
    value.contains('$') || value.contains('`') || value.contains('\n') || value.contains('\r')
}

fn contains_unsupported_literal(value: &str) -> (r: bool)
    ensures
        r == unsupported_literal(value@),
{
    contains_char(value, '$') || contains_char(value, '`') || contains_char(value, '\n')
        || contains_char(value, '\r')
}

/// What stands between quotes.
pub open spec fn quoted_literal(value: Seq<char>) -> Option<Seq<char>> {
    if value.len() >= 2 && ((starts_char(value, '"') && ends_char(value, '"')) || (starts_char(
        value,
        '\'',
    ) && ends_char(value, '\''))) {
        Some(value.subrange(1, value.len() - 1))
    } else {
        None
    }
}

fn parse_quoted_literal(value: &str) -> (r: Option<String>)
    ensures
        r.deep_view() == quoted_literal(value@),
{
    let chars = to_chars(value);
    let quoted = (starts_with_char(value, '"') && ends_with_char(value, '"')) || (starts_with_char(
        value,
        '\'',
    ) && ends_with_char(value, '\''));
    if chars.len() >= 2 && quoted {
        Some(text_range(&chars, 1, chars.len() - 1))
    } else {
        None
    }
}

/// A value in quotes that it does not hold.
pub open spec fn quoted_argument(value: Seq<char>) -> Option<Seq<char>> {
    if !value.contains('\'') {
        Some(seq!['\''] + value + seq!['\''])
    } else if !value.contains('"') {
        Some(seq!['"'] + value + seq!['"'])
    } else {
        None
    }
}

fn quote_argument(value: &str) -> (r: Option<String>)
    ensures
        r.deep_view() == quoted_argument(value@),
{
    let quote = if !contains_char(value, '\'') {
        '\''
    } else if !contains_char(value, '"') {
        '"'
    } else {
        return None;
    };
    let mut out = String::new();
    out.push(quote);
    out.append(value);
    out.push(quote);
    assert(out@ =~= seq![quote] + value@ + seq![quote]);
    Some(out)
}

/// Whether a path holds a wildcard.
pub open spec fn has_wildcard(value: Seq<char>) -> bool {
    value.contains('*') || value.contains('?') || value.contains('[') || value.contains(']')
}

fn contains_wildcard(value: &str) -> (r: bool)
    ensures
        r == has_wildcard(value@),
{
    contains_char(value, '*') || contains_char(value, '?') || contains_char(value, '[')
        || contains_char(value, ']')
}

// Parts.

/// The parts of a script between the semicolons that stand outside quotes,
/// parentheses and braces, each trimmed; `None` where one of them is not
/// closed or closed too often.
pub open spec fn top_parts_from(
    s: Seq<char>,
    quote: Option<char>,
    parens: nat,
    braces: nat,
    part: Seq<char>,
) -> Option<Seq<Seq<char>>>
    decreases s.len(),
{
    if s.len() == 0 {
        if quote is Some || parens != 0 || braces != 0 {
            None
        } else {
            Some(seq![trimmed(part)])
        }
    } else {
        let c = s[0];
        let rest = s.skip(1);
        let longer = part.push(c);
        if c == '\'' || c == '"' || quote is Some {
            top_parts_from(rest, quote_after(quote, c), parens, braces, longer)
        } else if c == '(' {
            top_parts_from(rest, quote, parens + 1, braces, longer)
        } else if c == ')' {
            if parens == 0 {
                None
            } else {
                top_parts_from(rest, quote, (parens - 1) as nat, braces, longer)
            }
        } else if c == '{' {
            top_parts_from(rest, quote, parens, braces + 1, longer)
        } else if c == '}' {
            if braces == 0 {
                None
            } else {
                top_parts_from(rest, quote, parens, (braces - 1) as nat, longer)
            }
        } else if c == ';' && parens == 0 && braces == 0 {
            match top_parts_from(rest, None, 0, 0, Seq::empty()) {
                Some(parts) => Some(seq![trimmed(part)] + parts),
                None => None,
            }
        } else {
            top_parts_from(rest, quote, parens, braces, longer)
        }
    }
}

/// The parts of a script, none of which may be empty.
pub open spec fn top_parts(s: Seq<char>) -> Option<Seq<Seq<char>>> {
    match top_parts_from(s, None, 0, 0, Seq::empty()) {
        Some(parts) => if any_empty(parts) {
            None
        } else {
            Some(parts)
        },
        None => None,
    }
}

/// The parts read before, and those that are still to come.
pub open spec fn after_parts(before: Seq<Seq<char>>, more: Option<Seq<Seq<char>>>) -> Option<
    Seq<Seq<char>>,
> {
    match more {
        Some(parts) => Some(before + parts),
        None => None,
    }
}

/// The parts of a script between its outermost semicolons.
#[verifier::rlimit(40)]
pub fn split_top_level_command_list(command: &str) -> (r: Option<Vec<String>>)
    ensures
        r.deep_view() == top_parts(command@),
{
    let chars = to_chars(command);
    let mut parts: Vec<String> = Vec::new();
    let mut start: usize = 0;
    let mut quote: Option<char> = None;
    let mut parens: usize = 0;
    let mut braces: usize = 0;
    let mut i: usize = 0;
    let ghost all = top_parts_from(chars@, None, 0, 0, Seq::empty());
    proof {
        assert(chars@.skip(0) =~= chars@);
        assert(chars@.subrange(0, 0) =~= Seq::<char>::empty());
        if let Some(more) = all {
            assert(parts.deep_view() + more =~= more);
        }
    }
    while i < chars.len()
        invariant
            start <= i <= chars.len(),
            parens <= i,
            braces <= i,
            after_parts(
                parts.deep_view(),
                top_parts_from(
                    chars@.skip(i as int),
                    quote,
                    parens as nat,
                    braces as nat,
                    chars@.subrange(start as int, i as int),
                ),
            ) == all,
        decreases chars.len() - i,
    {
        let c = chars[i];
        let ghost rest = chars@.skip(i as int);
        let ghost part = chars@.subrange(start as int, i as int);
        let ghost before = parts.deep_view();
        assert(rest[0] == c);
        assert(rest.skip(1) =~= chars@.skip(i + 1));
        assert(part.push(c) =~= chars@.subrange(start as int, i + 1));
        if c == '\'' || c == '"' || quote.is_some() {
            quote = next_quote(quote, c);
        } else if c == '(' {
            parens += 1;
        } else if c == ')' {
            if parens == 0 {
                return None;
            }
            parens -= 1;
        } else if c == '{' {
            braces += 1;
        } else if c == '}' {
            if braces == 0 {
                return None;
            }
            braces -= 1;
        } else if c == ';' && parens == 0 && braces == 0 {
            let text = text_range(&chars, start, i);
            push_item(&mut parts, trim(text.as_str()));
            start = i + 1;
            proof {
                assert(chars@.subrange(start as int, i + 1) =~= Seq::<char>::empty());
                let more = top_parts_from(rest.skip(1), None, 0, 0, Seq::empty());
                if let Some(more) = more {
                    assert(before + (seq![trimmed(part)] + more) =~= parts.deep_view() + more);
                }
            }
        }
        i += 1;
    }
    assert(chars@.skip(i as int) =~= Seq::<char>::empty());
    if quote.is_some() || parens != 0 || braces != 0 {
        return None;
    }
    let text = text_range(&chars, start, chars.len());
    let ghost before = parts.deep_view();
    push_item(&mut parts, trim(text.as_str()));
    assert(parts.deep_view() =~= before + seq![trimmed(text@)]);
    if has_empty(&parts) {
        None
    } else {
        Some(parts)
    }
}

// Parentheses.

/// Where the bracket that is open `depth` times before position `i` is
/// closed, outside quotes.
pub open spec fn close_from(
    s: Seq<char>,
    i: int,
    open: char,
    close: char,
    depth: nat,
    quote: Option<char>,
) -> Option<int>
    decreases s.len() - i,
{
    if i < 0 || i >= s.len() {
        None
    } else {
        let c = s[i];
        if c == '\'' || c == '"' || quote is Some {
            close_from(s, i + 1, open, close, depth, quote_after(quote, c))
        } else if c == open {
            close_from(s, i + 1, open, close, depth + 1, quote)
        } else if c == close {
            if depth == 0 {
                None
            } else if depth == 1 {
                Some(i)
            } else {
                close_from(s, i + 1, open, close, (depth - 1) as nat, quote)
            }
        } else {
            close_from(s, i + 1, open, close, depth, quote)
        }
    }
}

/// Where the bracket that opens at position `i` is closed.
pub open spec fn close_of(s: Seq<char>, i: int, open: char, close: char) -> Option<int> {
    close_from(s, i, open, close, 0, None)
}

proof fn lemma_close_from(
    s: Seq<char>,
    i: int,
    open: char,
    close: char,
    depth: nat,
    quote: Option<char>,
)
    requires
        0 <= i,
    ensures
        close_from(s, i, open, close, depth, quote) matches Some(j) ==> i <= j < s.len() && s[j]
            == close && (depth == 0 ==> i < j),
    decreases s.len() - i,
{
    if i < s.len() {
        let c = s[i];
        if c == '\'' || c == '"' || quote is Some {
            lemma_close_from(s, i + 1, open, close, depth, quote_after(quote, c));
        } else if c == open {
            lemma_close_from(s, i + 1, open, close, depth + 1, quote);
        } else if c == close {
            if depth > 1 {
                lemma_close_from(s, i + 1, open, close, (depth - 1) as nat, quote);
            }
        } else {
            lemma_close_from(s, i + 1, open, close, depth, quote);
        }
    }
}

/// Where the bracket that opens at position `start` is closed.
pub fn matching_close(chars: &Vec<char>, start: usize, open: char, close: char) -> (r: Option<
    usize,
>)
    requires
        start <= chars.len(),
    ensures
        match r {
            Some(j) => close_of(chars@, start as int, open, close) == Some(j as int) && start < j
                < chars.len(),
            None => close_of(chars@, start as int, open, close) is None,
        },
{
    let mut i: usize = start;
    let mut depth: usize = 0;
    let mut quote: Option<char> = None;
    proof {
        lemma_close_from(chars@, start as int, open, close, 0, None);
    }
    while i < chars.len()
        invariant
            start <= i <= chars.len(),
            depth <= i,
            close_from(chars@, i as int, open, close, depth as nat, quote) == close_of(
                chars@,
                start as int,
                open,
                close,
            ),
        decreases chars.len() - i,
    {
        let c = chars[i];
        if c == '\'' || c == '"' || quote.is_some() {
            quote = next_quote(quote, c);
        } else if c == open {
            depth += 1;
        } else if c == close {
            if depth == 0 {
                return None;
            }
            if depth == 1 {
                return Some(i);
            }
            depth -= 1;
        }
        i += 1;
    }
    None
}

/// A condition without the parentheses around the whole of it.
pub open spec fn unwrapped(value: Seq<char>) -> Seq<char>
    decreases value.len(),
{
    let current = trimmed(value);
    if starts_char(current, '(') && close_of(current, 0, '(', ')') == Some(current.len() - 1)
        && current.len() <= value.len() && current.len() >= 2 {
        unwrapped(current.subrange(1, current.len() - 1))
    } else {
        current
    }
}

proof fn lemma_trimmed_len(s: Seq<char>)
    ensures
        trimmed(s).len() <= s.len(),
{
    lemma_trim_bounds(s, CharClass::Space);
    let start = trimmed_start(s, CharClass::Space);
    lemma_trim_bounds(start, CharClass::Space);
}

proof fn lemma_unwrapped_len(s: Seq<char>)
    ensures
        unwrapped(s).len() <= trimmed(s).len() <= s.len(),
    decreases s.len(),
{
    lemma_trimmed_len(s);
    let current = trimmed(s);
    if starts_char(current, '(') && close_of(current, 0, '(', ')') == Some(current.len() - 1)
        && current.len() <= s.len() && current.len() >= 2 {
        lemma_unwrapped_len(current.subrange(1, current.len() - 1));
    }
}

/// A condition without the parentheses around the whole of it.
pub fn strip_wrapping_parens(value: &str) -> (r: String)
    ensures
        r@ == unwrapped(value@),
{
    let mut current = trim(value);
    proof {
        lemma_trimmed_len(value@);
    }
    // `current` stays trimmed, and its unwrapping that of the value.
    loop
        invariant
            exists|v: Seq<char>|
                current@ == #[trigger] trimmed(v) && unwrapped(v) == unwrapped(value@),
        decreases current@.len(),
    {
        let ghost v = choose|v: Seq<char>|
            current@ == #[trigger] trimmed(v) && unwrapped(v) == unwrapped(value@);
        proof {
            lemma_trimmed_len(v);
        }
        let chars = to_chars(current.as_str());
        if chars.len() < 2 || chars[0] != '(' || chars[chars.len() - 1] != ')' {
            proof {
                lemma_close_from(chars@, 0, '(', ')', 0, None);
            }
            return current;
        }
        match matching_close(&chars, 0, '(', ')') {
            None => {
                return current;
            },
            Some(close) => {
                if close != chars.len() - 1 {
                    return current;
                }
            },
        }
        let inner = text_range(&chars, 1, chars.len() - 1);
        proof {
            assert(unwrapped(v) == unwrapped(inner@));
            lemma_trimmed_len(inner@);
        }
        current = trim(inner.as_str());
        assert(current@ == trimmed(inner@) && unwrapped(inner@) == unwrapped(value@));
    }
}

// Conditions.

/// Whether an operator stands at position `i` with white space, or nothing,
/// on both sides.
pub open spec fn operator_at(s: Seq<char>, i: int, operator: Seq<char>) -> bool {
    &&& occurs_at(s, operator, i)
    &&& (i == 0 || whitespace(s[i - 1]))
    &&& (i + operator.len() == s.len() || whitespace(s[i + operator.len()]))
}

/// Where an operator stands outside quotes and parentheses, from position `i`
/// on.
pub open spec fn operator_from(
    s: Seq<char>,
    i: int,
    operator: Seq<char>,
    depth: nat,
    quote: Option<char>,
) -> Option<int>
    decreases s.len() - i,
{
    if i < 0 || i >= s.len() {
        None
    } else {
        let c = s[i];
        if c == '\'' || c == '"' || quote is Some {
            operator_from(s, i + 1, operator, depth, quote_after(quote, c))
        } else if c == '(' {
            operator_from(s, i + 1, operator, depth + 1, quote)
        } else if c == ')' {
            operator_from(
                s,
                i + 1,
                operator,
                if depth == 0 {
                    0
                } else {
                    (depth - 1) as nat
                },
                quote,
            )
        } else if depth == 0 && operator_at(s, i, operator) {
            Some(i)
        } else {
            operator_from(s, i + 1, operator, depth, quote)
        }
    }
}

/// The two sides of the first such operator in a condition.
pub open spec fn binary_sides(condition: Seq<char>, operator: Seq<char>) -> Option<
    (Seq<char>, Seq<char>),
> {
    let s = unwrapped(trimmed(condition));
    match operator_from(s, 0, operator, 0, None) {
        Some(i) => Some((trimmed(s.take(i)), trimmed(s.skip(i + operator.len())))),
        None => None,
    }
}

proof fn lemma_operator_from(
    s: Seq<char>,
    i: int,
    operator: Seq<char>,
    depth: nat,
    quote: Option<char>,
)
    requires
        0 <= i,
    ensures
        operator_from(s, i, operator, depth, quote) matches Some(j) ==> i <= j < s.len()
            && operator_at(s, j, operator),
    decreases s.len() - i,
{
    if i < s.len() {
        let c = s[i];
        if c == '\'' || c == '"' || quote is Some {
            lemma_operator_from(s, i + 1, operator, depth, quote_after(quote, c));
        } else if c == '(' {
            lemma_operator_from(s, i + 1, operator, depth + 1, quote);
        } else if c == ')' {
            lemma_operator_from(
                s,
                i + 1,
                operator,
                if depth == 0 {
                    0
                } else {
                    (depth - 1) as nat
                },
                quote,
            );
        } else if depth == 0 && operator_at(s, i, operator) {
        } else {
            lemma_operator_from(s, i + 1, operator, depth, quote);
        }
    }
}

/// The sides of an operator are shorter than the condition.
proof fn lemma_sides_shorter(condition: Seq<char>, operator: Seq<char>)
    requires
        operator.len() > 0,
    ensures
        binary_sides(condition, operator) matches Some((left, right)) ==> left.len()
            < condition.len() && right.len() < condition.len(),
{
    let s = unwrapped(trimmed(condition));
    lemma_trimmed_len(condition);
    lemma_unwrapped_len(trimmed(condition));
    lemma_operator_from(s, 0, operator, 0, None);
    if let Some(i) = operator_from(s, 0, operator, 0, None) {
        lemma_trimmed_len(s.take(i));
        lemma_trimmed_len(s.skip(i + operator.len()));
    }
}

/// The two sides of the first operator that stands outside quotes and
/// parentheses.
pub fn split_binary_condition(condition: &str, operator: &str) -> (r: Option<(String, String)>)
    ensures
        r.deep_view() == binary_sides(condition@, operator@),
{
    let text = strip_wrapping_parens(trim(condition).as_str());
    let chars = to_chars(text.as_str());
    let word = to_chars(operator);
    let mut depth: usize = 0;
    let mut quote: Option<char> = None;
    let mut i: usize = 0;
    proof {
        lemma_operator_from(chars@, 0, operator@, 0, None);
    }
    while i < chars.len()
        invariant
            i <= chars.len(),
            depth <= i,
            operator_from(chars@, i as int, operator@, depth as nat, quote) == operator_from(
                chars@,
                0,
                operator@,
                0,
                None,
            ),
        decreases chars.len() - i,
    {
        let c = chars[i];
        if c == '\'' || c == '"' || quote.is_some() {
            quote = next_quote(quote, c);
        } else if c == '(' {
            depth += 1;
        } else if c == ')' {
            if depth > 0 {
                depth -= 1;
            }
        } else if depth == 0 && chars_match_at(&chars, &word, i) && (i == 0 || is_whitespace(
            chars[i - 1],
        )) && (chars.len() - i == word.len() || is_whitespace(chars[i + word.len()])) {
            let left = text_range(&chars, 0, i);
            let right = text_range(&chars, i + word.len(), chars.len());
            assert(left@ =~= text@.take(i as int));
            assert(right@ =~= text@.skip(i + word.len()));
            return Some((trim(left.as_str()), trim(right.as_str())));
        }
        i += 1;
    }
    None
}

/// The literals assigned so far, the latest last.
pub type Variables = Vec<(String, String)>;

/// The value of a variable: the latest that was assigned.
pub open spec fn lookup(variables: Seq<(Seq<char>, Seq<char>)>, name: Seq<char>) -> Option<
    Seq<char>,
>
    decreases variables.len(),
{
    if variables.len() == 0 {
        None
    } else if variables.last().0 == name {
        Some(variables.last().1)
    } else {
        lookup(variables.drop_last(), name)
    }
}

/// The name of a variable without the dollar sign and in lower case.
pub open spec fn variable_name(value: Seq<char>) -> Seq<char> {
    ascii_lowercase(trimmed_start(value, CharClass::Only('$')))
}

/// What a value stands for: a variable for what was assigned to it, another
/// text without interpolation for itself.
pub open spec fn resolved_value(variables: Seq<(Seq<char>, Seq<char>)>, value: Seq<char>) -> Option<
    Seq<char>,
> {
    if simple_variable(value) {
        lookup(variables, variable_name(value))
    } else if unsupported_literal(value) {
        None
    } else {
        Some(value)
    }
}

fn find_variable(variables: &Variables, name: &str) -> (r: Option<String>)
    ensures
        r.deep_view() == lookup(variables.deep_view(), name@),
{
    let ghost view = variables.deep_view();
    let mut i: usize = variables.len();
    assert(view.take(i as int) =~= view);
    while i > 0
        invariant
            i <= variables.len(),
            lookup(view.take(i as int), name@) == lookup(view, name@),
        decreases i,
    {
        proof {
            assert(view.take(i as int).last() == view[i - 1]);
            assert(view[i - 1] == (variables[i - 1].0@, variables[i - 1].1@));
            assert(view.take(i as int).drop_last() =~= view.take(i - 1));
        }
        if same(variables[i - 1].0.as_str(), name) {
            return Some(variables[i - 1].1.clone());
        }
        i -= 1;
    }
    None
}

/// What a value stands for.
pub fn resolve_value(variables: &Variables, value: &str) -> (r: Option<String>)
    ensures
        r.deep_view() == resolved_value(variables.deep_view(), value@),
{
    if is_simple_variable(value) {
        let bare = trim_start_class(value, CharClass::Only('$'));
        let name = to_ascii_lowercase(bare.as_str());
        find_variable(variables, name.as_str())
    } else if contains_unsupported_literal(value) {
        None
    } else {
        Some(owned(value))
    }
}

/// The type of path that a word names.
pub open spec fn path_type_of(value: Seq<char>) -> Option<TestPathType> {
    let lower = ascii_lowercase(value);
    if lower == "any"@ {
        Some(TestPathType::Any)
    } else if lower == "leaf"@ {
        Some(TestPathType::Leaf)
    } else if lower == "container"@ {
        Some(TestPathType::Container)
    } else {
        None
    }
}

fn parse_path_type(value: &str) -> (r: Option<TestPathType>)
    ensures
        r == path_type_of(value@),
{
    let lower = to_ascii_lowercase(value);
    if same(lower.as_str(), "any") {
        Some(TestPathType::Any)
    } else if same(lower.as_str(), "leaf") {
        Some(TestPathType::Leaf)
    } else if same(lower.as_str(), "container") {
        Some(TestPathType::Container)
    } else {
        None
    }
}

/// The value that an optional token stands for.
pub open spec fn resolved_token(
    variables: Seq<(Seq<char>, Seq<char>)>,
    token: Option<Seq<char>>,
) -> Option<Seq<char>> {
    match token {
        Some(token) => resolved_value(variables, token),
        None => None,
    }
}

/// Reads the arguments of a test from position `i` on: the path, its type,
/// and the arguments that stand for themselves.
pub open spec fn test_scan(
    tokens: Seq<Seq<char>>,
    i: int,
    variables: Seq<(Seq<char>, Seq<char>)>,
    path: Option<Seq<char>>,
    path_type: TestPathType,
    positional: Seq<Seq<char>>,
) -> Option<(Option<Seq<char>>, TestPathType, Seq<Seq<char>>)>
    decreases tokens_left(tokens, i),
{
    if i < 0 || i >= tokens.len() {
        Some((path, path_type, positional))
    } else {
        let t = ascii_lowercase(tokens[i]);
        if path_option(t) {
            test_scan(
                tokens,
                i + 2,
                variables,
                resolved_token(variables, token_at(tokens, i + 1)),
                path_type,
                positional,
            )
        } else if t == "-pathtype"@ {
            match token_at(tokens, i + 1) {
                Some(value) => match path_type_of(value) {
                    Some(kind) => test_scan(tokens, i + 2, variables, path, kind, positional),
                    None => None,
                },
                None => None,
            }
        } else if path_colon_option(t) {
            test_scan(
                tokens,
                i + 1,
                variables,
                resolved_token(variables, after_colon(tokens[i])),
                path_type,
                positional,
            )
        } else if starts_char(t, '-') {
            None
        } else {
            test_scan(tokens, i + 1, variables, path, path_type, positional.push(tokens[i]))
        }
    }
}

/// The path of a test: where no option gives it, the only argument that
/// stands for itself; else no argument may. It holds no wildcard.
pub open spec fn tested_path(
    variables: Seq<(Seq<char>, Seq<char>)>,
    path: Option<Seq<char>>,
    positional: Seq<Seq<char>>,
) -> Option<Seq<char>> {
    let found = if path is None && positional.len() == 1 {
        resolved_value(variables, positional[0])
    } else if positional.len() > 0 {
        None
    } else {
        path
    };
    match found {
        Some(path) => if has_wildcard(path) {
            None
        } else {
            Some(path)
        },
        None => None,
    }
}

/// The test that a condition is.
pub open spec fn test_of(condition: Seq<char>, variables: Seq<(Seq<char>, Seq<char>)>) -> Option<
    ConditionView,
> {
    match tokens_of(condition) {
        Some(tokens) => if ascii_lowercase(tokens[0]) == "test-path"@ {
            match test_scan(tokens, 1, variables, None, TestPathType::Any, Seq::empty()) {
                Some((path, path_type, positional)) => match tested_path(
                    variables,
                    path,
                    positional,
                ) {
                    Some(path) => Some(ConditionView::TestPath { path, path_type }),
                    None => None,
                },
                None => None,
            }
        } else {
            None
        },
        None => None,
    }
}

/// The contents of a condition, if there is one.
pub open spec fn condition_view_of(condition: Option<MiniCondition>) -> Option<ConditionView> {
    match condition {
        Some(condition) => Some(condition_view(condition)),
        None => None,
    }
}

fn resolve_token(variables: &Variables, token: Option<String>) -> (r: Option<String>)
    ensures
        r.deep_view() == resolved_token(variables.deep_view(), token.deep_view()),
{
    match token {
        Some(token) => resolve_value(variables, token.as_str()),
        None => None,
    }
}

fn choose_path(variables: &Variables, path: Option<String>, positional: &Vec<String>) -> (r: Option<
    String,
>)
    ensures
        r.deep_view() == tested_path(
            variables.deep_view(),
            path.deep_view(),
            positional.deep_view(),
        ),
{
    let found = if path.is_none() && positional.len() == 1 {
        assert(positional.deep_view()[0] == positional[0]@);
        resolve_value(variables, positional[0].as_str())
    } else if positional.len() > 0 {
        None
    } else {
        path
    };
    match found {
        Some(path) => {
            if contains_wildcard(path.as_str()) {
                None
            } else {
                Some(path)
            }
        },
        None => None,
    }
}

/// The test that a condition is.
#[verifier::rlimit(40)]
pub fn parse_test_path(condition: &str, variables: &Variables) -> (r: Option<MiniCondition>)
    ensures
        condition_view_of(r) == test_of(condition@, variables.deep_view()),
{
    let tokens = match tokenize(condition) {
        Some(tokens) => tokens,
        None => {
            return None;
        },
    };
    let ghost view = tokens.deep_view();
    let ghost vars = variables.deep_view();
    assert(view[0] == tokens[0]@);
    let command = to_ascii_lowercase(tokens[0].as_str());
    if !same(command.as_str(), "test-path") {
        return None;
    }
    let mut path: Option<String> = None;
    let mut path_type = TestPathType::Any;
    let mut positional: Vec<String> = Vec::new();
    let mut index: usize = 1;
    let ghost all = test_scan(view, 1, vars, None, TestPathType::Any, Seq::empty());
    assert(positional.deep_view() =~= Seq::<Seq<char>>::empty());
    while index < tokens.len()
        invariant
            1 <= index <= tokens.len(),
            test_scan(
                view,
                index as int,
                vars,
                path.deep_view(),
                path_type,
                positional.deep_view(),
            ) == all,
        decreases tokens.len() - index,
    {
        let ghost at = index as int;
        assert(view[index as int] == tokens[index as int]@);
        let lower = to_ascii_lowercase(tokens[index].as_str());
        let t = lower.as_str();
        if is_path_option(t) {
            path = resolve_token(variables, get_token(&tokens, index + 1));
            if tokens.len() - index <= 1 {
                assert(test_scan(
                    view,
                    at + 2,
                    vars,
                    path.deep_view(),
                    path_type,
                    positional.deep_view(),
                ) == Some((path.deep_view(), path_type, positional.deep_view())));
                break;
            }
            index += 2;
        } else if same(t, "-pathtype") {
            if tokens.len() - index <= 1 {
                return None;
            }
            assert(view[index + 1] == tokens[index + 1]@);
            match parse_path_type(tokens[index + 1].as_str()) {
                Some(kind) => {
                    path_type = kind;
                    index += 2;
                },
                None => {
                    return None;
                },
            }
        } else if is_path_colon_option(t) {
            path = resolve_token(variables, colon_value(tokens[index].as_str()));
            index += 1;
        } else if starts_with_char(t, '-') {
            return None;
        } else {
            push_item(&mut positional, tokens[index].clone());
            index += 1;
        }
    }
    assert(all == Some((path.deep_view(), path_type, positional.deep_view())));
    match choose_path(variables, path, &positional) {
        Some(path) => Some(MiniCondition::TestPath { path, path_type }),
        None => None,
    }
}

/// The condition on the right of a dash and a word, or of an exclamation
/// mark, turned round as often as they stand there; else the test.
pub open spec fn not_of(condition: Seq<char>, variables: Seq<(Seq<char>, Seq<char>)>) -> Option<
    ConditionView,
>
    decreases condition.len(),
{
    let t = unwrapped(trimmed(condition));
    let rest = if starts_char(t, '!') {
        Some(t.skip(1))
    } else if keyword_start(t, "-not"@) {
        Some(trimmed(t.skip(4)))
    } else {
        None
    };
    match rest {
        Some(rest) => if rest.len() < condition.len() {
            match not_of(rest, variables) {
                Some(inner) => Some(ConditionView::Not(Box::new(inner))),
                None => None,
            }
        } else {
            None
        },
        None => test_of(t, variables),
    }
}

/// The condition with both sides of the first `-and`, or a negation.
pub open spec fn and_of(condition: Seq<char>, variables: Seq<(Seq<char>, Seq<char>)>) -> Option<
    ConditionView,
>
    decreases condition.len(),
{
    match binary_sides(condition, "-and"@) {
        Some((left, right)) => if left.len() < condition.len() {
            match (and_of(left, variables), not_of(right, variables)) {
                (Some(a), Some(b)) => Some(ConditionView::And(Box::new(a), Box::new(b))),
                _ => None,
            }
        } else {
            None
        },
        None => not_of(condition, variables),
    }
}

/// The condition with both sides of the first `-or`, or a conjunction.
pub open spec fn or_of(condition: Seq<char>, variables: Seq<(Seq<char>, Seq<char>)>) -> Option<
    ConditionView,
>
    decreases condition.len(),
{
    match binary_sides(condition, "-or"@) {
        Some((left, right)) => if left.len() < condition.len() {
            match (or_of(left, variables), and_of(right, variables)) {
                (Some(a), Some(b)) => Some(ConditionView::Or(Box::new(a), Box::new(b))),
                _ => None,
            }
        } else {
            None
        },
        None => and_of(condition, variables),
    }
}

/// The condition that a text in parentheses is.
pub open spec fn condition_of(condition: Seq<char>, variables: Seq<(Seq<char>, Seq<char>)>) -> Option<
    ConditionView,
> {
    or_of(unwrapped(trimmed(condition)), variables)
}

proof fn lemma_keyword_len(t: Seq<char>, keyword: Seq<char>)
    requires
        keyword_start(t, keyword),
    ensures
        t.len() >= keyword.len(),
{
    lemma_trim_bounds(t, CharClass::Space);
}

/// Reads a negation or a test.
pub fn parse_not(condition: &str, variables: &Variables) -> (r: Option<MiniCondition>)
    ensures
        condition_view_of(r) == not_of(condition@, variables.deep_view()),
    decreases condition@.len(),
{
    let text = strip_wrapping_parens(trim(condition).as_str());
    proof {
        lemma_trimmed_len(condition@);
        lemma_unwrapped_len(trimmed(condition@));
        reveal_strlit("-not");
    }
    let chars = to_chars(text.as_str());
    let rest: String;
    if chars.len() > 0 && chars[0] == '!' {
        rest = text_range(&chars, 1, chars.len());
        assert(rest@ =~= text@.skip(1));
    } else if starts_with_keyword(text.as_str(), "-not") {
        proof {
            lemma_keyword_len(text@, "-not"@);
            lemma_trimmed_len(text@.skip(4));
        }
        let tail = text_range(&chars, 4, chars.len());
        assert(tail@ =~= text@.skip(4));
        rest = trim(tail.as_str());
    } else {
        return parse_test_path(text.as_str(), variables);
    }
    match parse_not(rest.as_str(), variables) {
        Some(inner) => Some(MiniCondition::Not(Box::new(inner))),
        None => None,
    }
}

/// Reads a conjunction.
pub fn parse_and(condition: &str, variables: &Variables) -> (r: Option<MiniCondition>)
    ensures
        condition_view_of(r) == and_of(condition@, variables.deep_view()),
    decreases condition@.len(),
{
    proof {
        reveal_strlit("-and");
        lemma_sides_shorter(condition@, "-and"@);
    }
    match split_binary_condition(condition, "-and") {
        Some((left, right)) => {
            let a = parse_and(left.as_str(), variables);
            let b = parse_not(right.as_str(), variables);
            match (a, b) {
                (Some(a), Some(b)) => Some(MiniCondition::And(Box::new(a), Box::new(b))),
                _ => None,
            }
        },
        None => parse_not(condition, variables),
    }
}

/// Reads a disjunction.
pub fn parse_or(condition: &str, variables: &Variables) -> (r: Option<MiniCondition>)
    ensures
        condition_view_of(r) == or_of(condition@, variables.deep_view()),
    decreases condition@.len(),
{
    proof {
        reveal_strlit("-or");
        lemma_sides_shorter(condition@, "-or"@);
    }
    match split_binary_condition(condition, "-or") {
        Some((left, right)) => {
            let a = parse_or(left.as_str(), variables);
            let b = parse_and(right.as_str(), variables);
            match (a, b) {
                (Some(a), Some(b)) => Some(MiniCondition::Or(Box::new(a), Box::new(b))),
                _ => None,
            }
        },
        None => parse_and(condition, variables),
    }
}

/// Reads the condition in parentheses.
pub fn parse_condition(condition: &str, variables: &Variables) -> (r: Option<MiniCondition>)
    ensures
        condition_view_of(r) == condition_of(condition@, variables.deep_view()),
{
    let text = strip_wrapping_parens(trim(condition).as_str());
    parse_or(text.as_str(), variables)
}

// Bodies.

/// One word of a command with its variable replaced.
pub open spec fn substituted(token: Seq<char>, variables: Seq<(Seq<char>, Seq<char>)>) -> Option<
    Seq<char>,
> {
    if simple_variable(token) {
        match resolved_value(variables, token) {
            Some(value) => quoted_argument(value),
            None => None,
        }
    } else if token.contains('$') {
        None
    } else {
        Some(token)
    }
}

/// The words of a command with their variables replaced.
pub open spec fn substituted_all(
    tokens: Seq<Seq<char>>,
    variables: Seq<(Seq<char>, Seq<char>)>,
) -> Option<Seq<Seq<char>>>
    decreases tokens.len(),
{
    if tokens.len() == 0 {
        Some(Seq::empty())
    } else {
        match (
            substituted_all(tokens.drop_last(), variables),
            substituted(tokens.last(), variables),
        ) {
            (Some(before), Some(word)) => Some(before.push(word)),
            _ => None,
        }
    }
}

/// A command with its variables replaced.
pub open spec fn substituted_command(
    command: Seq<char>,
    variables: Seq<(Seq<char>, Seq<char>)>,
) -> Option<Seq<char>> {
    match tokens_of(command) {
        Some(tokens) => match substituted_all(tokens, variables) {
            Some(words) => Some(joined(words, " "@)),
            None => None,
        },
        None => None,
    }
}

proof fn lemma_substituted_prefix(
    tokens: Seq<Seq<char>>,
    variables: Seq<(Seq<char>, Seq<char>)>,
    n: int,
)
    requires
        0 <= n <= tokens.len(),
        substituted_all(tokens.take(n), variables) is None,
    ensures
        substituted_all(tokens, variables) is None,
    decreases tokens.len() - n,
{
    if n < tokens.len() {
        assert(tokens.take(n + 1).drop_last() =~= tokens.take(n));
        lemma_substituted_prefix(tokens, variables, n + 1);
    } else {
        assert(tokens.take(n) =~= tokens);
    }
}

fn substitute_word(token: &str, variables: &Variables) -> (r: Option<String>)
    ensures
        r.deep_view() == substituted(token@, variables.deep_view()),
{
    if is_simple_variable(token) {
        match resolve_value(variables, token) {
            Some(value) => quote_argument(value.as_str()),
            None => None,
        }
    } else if contains_char(token, '$') {
        None
    } else {
        Some(owned(token))
    }
}

/// A command with its variables replaced.
pub fn substitute_variables(command: &str, variables: &Variables) -> (r: Option<String>)
    ensures
        r.deep_view() == substituted_command(command@, variables.deep_view()),
{
    let tokens = match tokenize(command) {
        Some(tokens) => tokens,
        None => {
            return None;
        },
    };
    let ghost view = tokens.deep_view();
    let ghost vars = variables.deep_view();
    let mut words: Vec<String> = Vec::new();
    let mut i: usize = 0;
    assert(words.deep_view() =~= Seq::<Seq<char>>::empty());
    while i < tokens.len()
        invariant
            i <= tokens.len(),
            substituted_all(view.take(i as int), vars) == Some(words.deep_view()),
        decreases tokens.len() - i,
    {
        proof {
            assert(view.take(i + 1).drop_last() =~= view.take(i as int));
            assert(view.take(i + 1).last() == tokens[i as int]@);
        }
        match substitute_word(tokens[i].as_str(), variables) {
            Some(word) => {
                push_item(&mut words, word);
            },
            None => {
                proof {
                    lemma_substituted_prefix(view, vars, i + 1);
                }
                return None;
            },
        }
        i += 1;
    }
    assert(view.take(i as int) =~= view);
    Some(join(&words, " "))
}

/// The step for one command of a body: its variables are replaced, and it
/// must neither be a chain of conditions nor change anything.
pub open spec fn body_segment(
    part: Seq<char>,
    variables: Seq<(Seq<char>, Seq<char>)>,
    cwd: Option<Seq<char>>,
) -> Option<SegmentView> {
    if keyword_start(part, "if"@) {
        None
    } else {
        match substituted_command(part, variables) {
            Some(command) => if mutating(command, first_name(command)) {
                None
            } else {
                segment_of(command, cwd, valid_powershell(trimmed(command)))
            },
            None => None,
        }
    }
}

fn read_body_segment(part: &str, variables: &Variables, cwd: Option<&str>) -> (r: Option<
    FastSegment,
>)
    ensures
        segment_view_of(r) == body_segment(part@, variables.deep_view(), cwd.deep_view()),
{
    if starts_with_keyword(part, "if") {
        return None;
    }
    let command = match substitute_variables(part, variables) {
        Some(command) => command,
        None => {
            return None;
        },
    };
    let first: Option<String> = match tokenize(command.as_str()) {
        Some(tokens) => {
            assert(tokens.deep_view()[0] == tokens[0]@);
            Some(normalize_command_name(tokens[0].as_str()))
        },
        None => None,
    };
    if is_mutating_command(command.as_str(), option_str(&first)) {
        return None;
    }
    read_segment(command.as_str(), cwd)
}

/// The steps of a body, each of which must have one.
pub open spec fn body_segments(
    parts: Seq<Seq<char>>,
    variables: Seq<(Seq<char>, Seq<char>)>,
    cwd: Option<Seq<char>>,
) -> Option<Seq<SegmentView>>
    decreases parts.len(),
{
    if parts.len() == 0 {
        Some(Seq::empty())
    } else {
        match (
            body_segments(parts.drop_last(), variables, cwd),
            body_segment(parts.last(), variables, cwd),
        ) {
            (Some(before), Some(segment)) => Some(before.push(segment)),
            _ => None,
        }
    }
}

/// The steps of a body: at least one.
pub open spec fn body_of(
    body: Seq<char>,
    variables: Seq<(Seq<char>, Seq<char>)>,
    cwd: Option<Seq<char>>,
) -> Option<Seq<SegmentView>> {
    match top_parts(body) {
        Some(parts) => match body_segments(parts, variables, cwd) {
            Some(segments) => if segments.len() > 0 {
                Some(segments)
            } else {
                None
            },
            None => None,
        },
        None => None,
    }
}

proof fn lemma_body_prefix(
    parts: Seq<Seq<char>>,
    variables: Seq<(Seq<char>, Seq<char>)>,
    cwd: Option<Seq<char>>,
    n: int,
)
    requires
        0 <= n <= parts.len(),
        body_segments(parts.take(n), variables, cwd) is None,
    ensures
        body_segments(parts, variables, cwd) is None,
    decreases parts.len() - n,
{
    if n < parts.len() {
        assert(parts.take(n + 1).drop_last() =~= parts.take(n));
        lemma_body_prefix(parts, variables, cwd, n + 1);
    } else {
        assert(parts.take(n) =~= parts);
    }
}

/// The contents of the steps, if there are any.
pub open spec fn segments_view_of(segments: Option<Vec<FastSegment>>) -> Option<Seq<SegmentView>> {
    match segments {
        Some(segments) => Some(segments_view(segments@)),
        None => None,
    }
}

/// Reads the steps of a body.
pub fn parse_body(body: &str, variables: &Variables, cwd: Option<&str>) -> (r: Option<
    Vec<FastSegment>,
>)
    ensures
        segments_view_of(r) == body_of(body@, variables.deep_view(), cwd.deep_view()),
{
    let parts = match split_top_level_command_list(body) {
        Some(parts) => parts,
        None => {
            return None;
        },
    };
    let ghost view = parts.deep_view();
    let ghost vars = variables.deep_view();
    let mut segments: Vec<FastSegment> = Vec::new();
    let mut i: usize = 0;
    assert(segments_view(segments@) =~= Seq::<SegmentView>::empty());
    while i < parts.len()
        invariant
            i <= parts.len(),
            body_segments(view.take(i as int), vars, cwd.deep_view()) == Some(
                segments_view(segments@),
            ),
        decreases parts.len() - i,
    {
        proof {
            assert(view.take(i + 1).drop_last() =~= view.take(i as int));
            assert(view.take(i + 1).last() == parts[i as int]@);
        }
        match read_body_segment(parts[i].as_str(), variables, cwd) {
            Some(segment) => {
                push_segment(&mut segments, segment);
            },
            None => {
                proof {
                    lemma_body_prefix(view, vars, cwd.deep_view(), i + 1);
                }
                return None;
            },
        }
        i += 1;
    }
    assert(view.take(i as int) =~= view);
    if segments.len() == 0 {
        None
    } else {
        Some(segments)
    }
}

// Chains.

/// The position behind the white space at position `i`.
pub open spec fn past_space(s: Seq<char>, i: int) -> int {
    i + leading(s.skip(i), CharClass::Space)
}

/// What stands in brackets at position `i`, after white space, and the
/// position behind them.
pub open spec fn enclosed(s: Seq<char>, i: int, open: char, close: char) -> Option<
    (Seq<char>, int),
> {
    let start = past_space(s, i);
    if 0 <= start < s.len() && s[start] == open {
        match close_of(s, start, open, close) {
            Some(end) => if start < end < s.len() {
                Some((s.subrange(start + 1, end), end + 1))
            } else {
                None
            },
            None => None,
        }
    } else {
        None
    }
}

/// The branch at position `i`: a condition in parentheses where one belongs
/// there, and a body in braces; and the position behind it.
pub open spec fn branch_at(
    s: Seq<char>,
    i: int,
    conditional: bool,
    variables: Seq<(Seq<char>, Seq<char>)>,
    cwd: Option<Seq<char>>,
) -> Option<(BranchView, int)> {
    if conditional {
        match enclosed(s, i, '(', ')') {
            Some((condition, j)) => match enclosed(s, j, '{', '}') {
                Some((body, k)) => match (
                    condition_of(condition, variables),
                    body_of(body, variables, cwd),
                ) {
                    (Some(condition), Some(segments)) => Some(
                        (BranchView { condition: Some(condition), segments }, k),
                    ),
                    _ => None,
                },
                None => None,
            },
            None => None,
        }
    } else {
        match enclosed(s, i, '{', '}') {
            Some((body, k)) => match body_of(body, variables, cwd) {
                Some(segments) => Some((BranchView { condition: None, segments }, k)),
                None => None,
            },
            None => None,
        }
    }
}

/// The branches of a chain from position `i` on, on top of those read: any
/// number with a condition, then at most one without, and nothing behind.
pub open spec fn chain_from(
    s: Seq<char>,
    i: int,
    branches: Seq<BranchView>,
    variables: Seq<(Seq<char>, Seq<char>)>,
    cwd: Option<Seq<char>>,
) -> Option<Seq<BranchView>>
    decreases s.len() - i,
{
    let j = past_space(s, i);
    if j >= s.len() {
        Some(branches)
    } else if keyword_start(s.skip(j), "elseif"@) {
        match branch_at(s, j + "elseif"@.len(), true, variables, cwd) {
            Some((branch, k)) => if i < k <= s.len() {
                chain_from(s, k, branches.push(branch), variables, cwd)
            } else {
                None
            },
            None => None,
        }
    } else if keyword_start(s.skip(j), "else"@) {
        match branch_at(s, j + "else"@.len(), false, variables, cwd) {
            Some((branch, k)) => if past_space(s, k) >= s.len() {
                Some(branches.push(branch))
            } else {
                None
            },
            None => None,
        }
    } else {
        None
    }
}

/// The branches of a chain of conditions.
pub open spec fn chain_of(
    s: Seq<char>,
    variables: Seq<(Seq<char>, Seq<char>)>,
    cwd: Option<Seq<char>>,
) -> Option<Seq<BranchView>> {
    let j = past_space(s, 0);
    if keyword_start(s.skip(j), "if"@) {
        match branch_at(s, j + "if"@.len(), true, variables, cwd) {
            Some((branch, k)) => chain_from(s, k, seq![branch], variables, cwd),
            None => None,
        }
    } else {
        None
    }
}

fn skip_ws(chars: &Vec<char>, start: usize) -> (r: usize)
    requires
        start <= chars.len(),
    ensures
        r == past_space(chars@, start as int),
        start <= r <= chars.len(),
{
    let mut i: usize = start;
    while i < chars.len() && is_whitespace(chars[i])
        invariant
            start <= i <= chars.len(),
            forall|j: int| start <= j < i ==> whitespace(chars@[j]),
        decreases chars.len() - i,
    {
        i += 1;
    }
    proof {
        lemma_leading(chars@.skip(start as int), CharClass::Space, (i - start) as nat);
    }
    i
}

fn read_enclosed(chars: &Vec<char>, i: usize, open: char, close: char) -> (r: Option<
    (String, usize),
>)
    requires
        i <= chars.len(),
    ensures
        match r {
            Some((text, next)) => enclosed(chars@, i as int, open, close) == Some(
                (text@, next as int),
            ) && i < next <= chars.len(),
            None => enclosed(chars@, i as int, open, close) is None,
        },
{
    let start = skip_ws(chars, i);
    if start == chars.len() || chars[start] != open {
        return None;
    }
    match matching_close(chars, start, open, close) {
        Some(end) => Some((text_range(chars, start + 1, end), end + 1)),
        None => None,
    }
}

fn read_branch(
    chars: &Vec<char>,
    i: usize,
    conditional: bool,
    variables: &Variables,
    cwd: Option<&str>,
) -> (r: Option<(MiniBranch, usize)>)
    requires
        i <= chars.len(),
    ensures
        match r {
            Some((branch, next)) => branch_at(
                chars@,
                i as int,
                conditional,
                variables.deep_view(),
                cwd.deep_view(),
            ) == Some((branch_view(branch), next as int)) && i < next <= chars.len(),
            None => branch_at(
                chars@,
                i as int,
                conditional,
                variables.deep_view(),
                cwd.deep_view(),
            ) is None,
        },
{
    if conditional {
        match read_enclosed(chars, i, '(', ')') {
            Some((condition, j)) => match read_enclosed(chars, j, '{', '}') {
                Some((body, k)) => {
                    let condition = parse_condition(condition.as_str(), variables);
                    let segments = parse_body(body.as_str(), variables, cwd);
                    match (condition, segments) {
                        (Some(condition), Some(segments)) => {
                            let branch = MiniBranch { condition: Some(condition), segments };
                            Some((branch, k))
                        },
                        _ => None,
                    }
                },
                None => None,
            },
            None => None,
        }
    } else {
        match read_enclosed(chars, i, '{', '}') {
            Some((body, k)) => match parse_body(body.as_str(), variables, cwd) {
                Some(segments) => {
                    let branch = MiniBranch { condition: None, segments };
                    Some((branch, k))
                },
                None => None,
            },
            None => None,
        }
    }
}

/// Whether a keyword stands at position `i`, where there is no white space.
fn keyword_at(chars: &Vec<char>, i: usize, keyword: &str) -> (r: bool)
    requires
        i <= chars.len(),
        i < chars.len() ==> !whitespace(chars@[i as int]),
    ensures
        r == keyword_start(chars@.skip(i as int), keyword@),
        r ==> i + keyword@.len() <= chars.len(),
{
    let rest = text_range(chars, i, chars.len());
    assert(rest@ =~= chars@.skip(i as int));
    let found = starts_with_keyword(rest.as_str(), keyword);
    proof {
        if found {
            lemma_trim_bounds(rest@, CharClass::Space);
        }
    }
    found
}

/// Appends a branch to a chain.
fn push_branch(branches: &mut Vec<MiniBranch>, branch: MiniBranch)
    ensures
        branches_view(final(branches)@) == branches_view(old(branches)@).push(branch_view(branch)),
{
    branches.push(branch);
    assert(branches_view(branches@) =~= branches_view(old(branches)@).push(branch_view(branch)));
}

proof fn lemma_past_space(s: Seq<char>, i: int)
    requires
        0 <= i <= s.len(),
    ensures
        i <= past_space(s, i) <= s.len(),
        past_space(s, i) < s.len() ==> !whitespace(s[past_space(s, i)]),
{
    let rest = s.skip(i);
    lemma_trim_bounds(rest, CharClass::Space);
    let n = leading(rest, CharClass::Space) as int;
    if n < rest.len() {
        assert(rest[n] == s[i + n]);
    }
}

/// The contents of a script, if there is one.
pub open spec fn script_view_of(script: Option<MiniScript>) -> Option<Seq<BranchView>> {
    match script {
        Some(script) => Some(branches_view(script.branches@)),
        None => None,
    }
}

/// Reads a chain of conditions.
#[verifier::rlimit(40)]
pub fn parse_if_chain(command: &str, variables: &Variables, cwd: Option<&str>) -> (r: Option<
    MiniScript,
>)
    ensures
        script_view_of(r) == chain_of(command@, variables.deep_view(), cwd.deep_view()),
{
    let chars = to_chars(command);
    let ghost vars = variables.deep_view();
    let ghost dir = cwd.deep_view();
    proof {
        reveal_strlit("if");
        reveal_strlit("else");
        reveal_strlit("elseif");
        lemma_past_space(chars@, 0);
    }
    let start = skip_ws(&chars, 0);
    if !keyword_at(&chars, start, "if") {
        return None;
    }
    let (branch, next) = match read_branch(&chars, start + 2, true, variables, cwd) {
        Some(found) => found,
        None => {
            return None;
        },
    };
    let mut branches: Vec<MiniBranch> = Vec::new();
    assert(branches_view(branches@) =~= Seq::<BranchView>::empty());
    push_branch(&mut branches, branch);
    assert(branches_view(branches@) =~= seq![branch_view(branch)]);
    let mut i: usize = next;
    loop
        invariant
            i <= chars.len(),
            chain_from(chars@, i as int, branches_view(branches@), vars, dir) == chain_of(
                chars@,
                vars,
                dir,
            ),
        decreases chars.len() - i,
    {
        proof {
            lemma_past_space(chars@, i as int);
        }
        let j = skip_ws(&chars, i);
        if j == chars.len() {
            return Some(MiniScript { branches });
        }
        if keyword_at(&chars, j, "elseif") {
            match read_branch(&chars, j + 6, true, variables, cwd) {
                Some((branch, k)) => {
                    push_branch(&mut branches, branch);
                    i = k;
                },
                None => {
                    return None;
                },
            }
        } else if keyword_at(&chars, j, "else") {
            match read_branch(&chars, j + 4, false, variables, cwd) {
                Some((branch, k)) => {
                    push_branch(&mut branches, branch);
                    proof {
                        lemma_past_space(chars@, k as int);
                    }
                    if skip_ws(&chars, k) == chars.len() {
                        return Some(MiniScript { branches });
                    }
                    return None;
                },
                None => {
                    return None;
                },
            }
        } else {
            return None;
        }
    }
}

// Scripts.

/// The assignment that a part of a script is: the name and the literal.
pub open spec fn assignment_of(part: Seq<char>) -> Option<(Seq<char>, Seq<char>)> {
    match split_at_first(part, '=') {
        Some((name, value)) => {
            let name = trimmed(name);
            match quoted_literal(trimmed(value)) {
                Some(literal) => if simple_variable(name) && !unsupported_literal(literal) {
                    Some((variable_name(name), literal))
                } else {
                    None
                },
                None => None,
            }
        },
        None => None,
    }
}

/// Reads an assignment of a literal.
pub fn parse_literal_assignment(part: &str) -> (r: Option<(String, String)>)
    ensures
        r.deep_view() == assignment_of(part@),
{
    match split_once(part, '=') {
        Some((name, value)) => {
            let name = trim(name.as_str());
            let value = trim(value.as_str());
            if !is_simple_variable(name.as_str()) {
                return None;
            }
            match parse_quoted_literal(value.as_str()) {
                Some(literal) => {
                    if contains_unsupported_literal(literal.as_str()) {
                        return None;
                    }
                    let bare = trim_start_class(name.as_str(), CharClass::Only('$'));
                    Some((to_ascii_lowercase(bare.as_str()), literal))
                },
                None => None,
            }
        },
        None => None,
    }
}

/// The branches of the script from part `i` on: assignments, then one chain
/// of conditions, which is the last part.
pub open spec fn script_from(
    parts: Seq<Seq<char>>,
    i: int,
    variables: Seq<(Seq<char>, Seq<char>)>,
    cwd: Option<Seq<char>>,
) -> Option<Seq<BranchView>>
    decreases parts.len() - i,
{
    if i < 0 || i >= parts.len() {
        None
    } else if keyword_start(parts[i], "if"@) {
        if i + 1 < parts.len() {
            None
        } else {
            chain_of(parts[i], variables, cwd)
        }
    } else {
        match assignment_of(parts[i]) {
            Some(assignment) => script_from(parts, i + 1, variables.push(assignment), cwd),
            None => None,
        }
    }
}

/// The branches of a script.
pub open spec fn branches_of(command: Seq<char>, cwd: Option<Seq<char>>) -> Option<
    Seq<BranchView>,
> {
    match top_parts(command) {
        Some(parts) => script_from(parts, 0, Seq::empty(), cwd),
        None => None,
    }
}

/// Reads the branches of a script.
pub fn parse_branches(command: &str, cwd: Option<&str>) -> (r: Option<MiniScript>)
    ensures
        script_view_of(r) == branches_of(command@, cwd.deep_view()),
{
    let parts = match split_top_level_command_list(command) {
        Some(parts) => parts,
        None => {
            return None;
        },
    };
    let ghost view = parts.deep_view();
    let mut variables: Variables = Vec::new();
    let mut i: usize = 0;
    assert(variables.deep_view() =~= Seq::<(Seq<char>, Seq<char>)>::empty());
    while i < parts.len()
        invariant
            i <= parts.len(),
            script_from(view, i as int, variables.deep_view(), cwd.deep_view()) == script_from(
                view,
                0,
                Seq::empty(),
                cwd.deep_view(),
            ),
        decreases parts.len() - i,
    {
        assert(view[i as int] == parts[i as int]@);
        if starts_with_keyword(parts[i].as_str(), "if") {
            if i + 1 < parts.len() {
                return None;
            }
            return parse_if_chain(parts[i].as_str(), &variables, cwd);
        }
        match parse_literal_assignment(parts[i].as_str()) {
            Some(assignment) => {
                push_item(&mut variables, assignment);
            },
            None => {
                return None;
            },
        }
        i += 1;
    }
    None
}

/// Whether a command may be a script.
pub open spec fn script_like(command: Seq<char>) -> bool {
    let lower = ascii_lowercase(command);
    has_text(lower, "if"@) && has_text(lower, "test-path"@) && lower.contains('{')
}

/// Whether a command may be a script.
pub fn looks_like_mini_script(command: &str) -> (r: bool)
    ensures
        r == script_like(command@),
{
    let lower = to_ascii_lowercase(command);
    contains(lower.as_str(), "if") && contains(lower.as_str(), "test-path") && contains_char(
        lower.as_str(),
        '{',
    )
}

/// The operation for a script, given whether it is valid PowerShell.
pub open spec fn script_of(command: Seq<char>, cwd: Option<Seq<char>>, valid: bool) -> Option<
    OperationView,
> {
    if script_like(command) && !dynamic(command) && valid {
        match branches_of(command, cwd) {
            Some(branches) => if branches.len() > 0 {
                Some(OperationView::MiniScript(branches))
            } else {
                None
            },
            None => None,
        }
    } else {
        None
    }
}

/// Reads a script.
pub fn parse_mini_script(command: &str, cwd: Option<&str>) -> (r: Option<FastOperation>)
    ensures
        view_of(r) == script_of(command@, cwd.deep_view(), valid_powershell(command@)),
{
    if !looks_like_mini_script(command) {
        return None;
    }
    if has_dynamic_or_unsafe_constructs(command) {
        return None;
    }
    if !is_valid_powershell_ast(command) {
        return None;
    }
    match parse_branches(command, cwd) {
        Some(script) => {
            if script.branches.len() == 0 {
                None
            } else {
                Some(FastOperation::MiniScript(script))
            }
        },
        None => None,
    }
}

} // verus!
