//! The words of a command, and its parts between pipes and semicolons.
#![verifier::loop_isolation(false)]

use crate::case::{lowered, to_lowercase};
use crate::split::{find_char, position_of};
use crate::text::{
    is_whitespace, push_item, text_range, to_chars, trim, trim_class, trimmed, trimmed_of,
    whitespace, CharClass,
};
use vstd::prelude::*;
use vstd::string::*;

verus! {

// Words.

/// How many characters at the start of `s` are not white space.
pub open spec fn solid_run(s: Seq<char>) -> nat
    decreases s.len(),
{
    if s.len() > 0 && !whitespace(s[0]) {
        1 + solid_run(s.skip(1))
    } else {
        0
    }
}

/// Whether `s` starts with a quote that is closed further on.
pub open spec fn quoted_start(s: Seq<char>) -> bool {
    s.len() > 0 && (s[0] == '"' || s[0] == '\'') && position_of(s.skip(1), s[0]) < s.len() - 1
}

/// The words of a command: what stands between two quotes of the same sort,
/// without the quotes, where a word starts with a quote that is closed;
/// elsewhere a run of characters that are not white space.
pub open spec fn words_of(s: Seq<char>) -> Seq<Seq<char>>
    decreases s.len(),
{
    if s.len() == 0 {
        Seq::empty()
    } else if whitespace(s[0]) {
        words_of(s.skip(1))
    } else if quoted_start(s) {
        let end = 1 + position_of(s.skip(1), s[0]) as int;
        seq![s.subrange(1, end)] + words_of(s.skip(end + 1))
    } else {
        let n = solid_run(s) as int;
        if 0 < n <= s.len() {
            seq![s.take(n)] + words_of(s.skip(n))
        } else {
            Seq::empty()
        }
    }
}

/// The words of a command, if it has any.
pub open spec fn tokens_of(s: Seq<char>) -> Option<Seq<Seq<char>>> {
    if words_of(s).len() == 0 {
        None
    } else {
        Some(words_of(s))
    }
}

proof fn lemma_solid_run(s: Seq<char>, n: nat)
    requires
        n <= s.len(),
        forall|j: int| 0 <= j < n ==> !whitespace(s[j]),
        n < s.len() ==> whitespace(s[n as int]),
    ensures
        solid_run(s) == n,
    decreases n,
{
    if n > 0 {
        assert forall|j: int| 0 <= j < n - 1 implies !whitespace(s.skip(1)[j]) by {
            assert(s.skip(1)[j] == s[j + 1]);
        }
        lemma_solid_run(s.skip(1), (n - 1) as nat);
    }
}

/// The words of a command, if it has any.
pub fn tokenize(command: &str) -> (r: Option<Vec<String>>)
    ensures
        r.deep_view() == tokens_of(command@),
{
    let chars = to_chars(command);
    let mut tokens: Vec<String> = Vec::new();
    let mut i: usize = 0;
    assert(chars@.skip(0) =~= chars@);
    assert(tokens.deep_view() + words_of(chars@) =~= words_of(chars@));
    while i < chars.len()
        invariant
            i <= chars.len(),
            tokens.deep_view() + words_of(chars@.skip(i as int)) == words_of(command@),
        decreases chars.len() - i,
    {
        let ghost rest = chars@.skip(i as int);
        let ghost before = tokens.deep_view();
        let c = chars[i];
        assert(rest[0] == c);
        assert(rest.skip(1) =~= chars@.skip(i + 1));
        if is_whitespace(c) {
            i += 1;
            continue;
        }
        if c == '"' || c == '\'' {
            let end = find_char(&chars, i + 1, c);
            if end < chars.len() {
                let token = text_range(&chars, i + 1, end);
                assert(token@ =~= rest.subrange(1, end - i));
                push_item(&mut tokens, token);
                assert(rest.skip(end - i + 1) =~= chars@.skip(end + 1));
                assert(before + words_of(rest) =~= tokens.deep_view() + words_of(
                    chars@.skip(end + 1),
                ));
                i = end + 1;
                continue;
            }
        }
        assert(!quoted_start(rest));
        let start: usize = i;
        let mut end: usize = i;
        while end < chars.len() && !is_whitespace(chars[end])
            invariant
                start <= end <= chars.len(),
                forall|j: int| start <= j < end ==> !whitespace(chars@[j]),
            decreases chars.len() - end,
        {
            end += 1;
        }
        proof {
            lemma_solid_run(rest, (end - start) as nat);
        }
        let token = text_range(&chars, start, end);
        assert(token@ =~= rest.take(end - start));
        push_item(&mut tokens, token);
        assert(rest.skip(end - start) =~= chars@.skip(end as int));
        assert(end > start);
        assert(before + words_of(rest) =~= tokens.deep_view() + words_of(
            chars@.skip(end as int),
        ));
        i = end;
    }
    assert(chars@.skip(i as int) =~= Seq::<char>::empty());
    assert(tokens.deep_view() + Seq::<Seq<char>>::empty() =~= tokens.deep_view());
    if tokens.len() == 0 {
        None
    } else {
        Some(tokens)
    }
}

// Parts.

/// The open quote after the character `c`.
pub open spec fn quote_after(quote: Option<char>, c: char) -> Option<char> {
    if c == '\'' || c == '"' {
        if quote == Some(c) {
            None
        } else if quote is None {
            Some(c)
        } else {
            quote
        }
    } else {
        quote
    }
}

/// The open quote after the character `c`.
pub fn next_quote(quote: Option<char>, c: char) -> (r: Option<char>)
    ensures
        r == quote_after(quote, c),
{
    if c == '\'' || c == '"' {
        match quote {
            Some(open) => {
                if open == c {
                    None
                } else {
                    quote
                }
            },
            None => Some(c),
        }
    } else {
        quote
    }
}

/// Whether a character stands outside quotes in a text that is read with
/// `quote` open.
pub open spec fn unquoted_from(s: Seq<char>, c: char, quote: Option<char>) -> bool
    decreases s.len(),
{
    s.len() > 0 && ((s[0] == c && quote is None) || unquoted_from(
        s.skip(1),
        c,
        quote_after(quote, s[0]),
    ))
}

/// Whether a character stands outside quotes.
pub open spec fn unquoted(s: Seq<char>, c: char) -> bool {
    unquoted_from(s, c, None)
}

/// Whether a character stands outside quotes.
pub fn stands_unquoted(text: &str, c: char) -> (r: bool)
    ensures
        r == unquoted(text@, c),
{
    let chars = to_chars(text);
    let ghost all = chars@;
    let mut quote: Option<char> = None;
    let mut i: usize = 0;
    assert(all.skip(0) =~= all);
    while i < chars.len()
        invariant
            i <= chars.len(),
            chars@ == all,
            unquoted_from(all.skip(i as int), c, quote) == unquoted(all, c),
        decreases chars.len() - i,
    {
        let next = chars[i];
        assert(all.skip(i as int).skip(1) =~= all.skip(i + 1));
        if next == c && quote.is_none() {
            return true;
        }
        quote = next_quote(quote, next);
        i += 1;
    }
    false
}

/// The parts of a command between the separators that stand outside quotes,
/// each trimmed. `part` is what is read of the current part, with `quote`
/// open.
pub open spec fn parts_from(s: Seq<char>, sep: char, quote: Option<char>, part: Seq<char>) -> Seq<
    Seq<char>,
>
    decreases s.len(),
{
    if s.len() == 0 {
        seq![trimmed(part)]
    } else if s[0] == sep && quote is None {
        seq![trimmed(part)] + parts_from(s.skip(1), sep, None, Seq::empty())
    } else {
        parts_from(s.skip(1), sep, quote_after(quote, s[0]), part.push(s[0]))
    }
}

/// Whether some part is empty.
pub open spec fn any_empty(parts: Seq<Seq<char>>) -> bool {
    exists|i: int| 0 <= i < parts.len() && (#[trigger] parts[i]).len() == 0
}

/// The parts of a command, none of which may be empty.
pub open spec fn parts_of(s: Seq<char>, sep: char) -> Option<Seq<Seq<char>>> {
    let parts = parts_from(s, sep, None, Seq::empty());
    if any_empty(parts) {
        None
    } else {
        Some(parts)
    }
}

/// Whether some text of the list is empty.
pub fn has_empty(parts: &Vec<String>) -> (r: bool)
    ensures
        r == any_empty(parts.deep_view()),
{
    let ghost view = parts.deep_view();
    let mut i: usize = 0;
    while i < parts.len()
        invariant
            i <= parts.len(),
            forall|j: int| 0 <= j < i ==> (#[trigger] view[j]).len() != 0,
        decreases parts.len() - i,
    {
        assert(view[i as int] == parts[i as int]@);
        if parts[i].as_str().unicode_len() == 0 {
            assert(view[i as int].len() == 0);
            return true;
        }
        i += 1;
    }
    false
}

/// The parts of a command between the separators that stand outside quotes.
/// The separator is not a quote.
pub fn split_outside_quotes(command: &str, sep: char) -> (r: Option<Vec<String>>)
    requires
        sep != '\'' && sep != '"',
    ensures
        r.deep_view() == parts_of(command@, sep),
{
    let chars = to_chars(command);
    let mut parts: Vec<String> = Vec::new();
    let mut start: usize = 0;
    let mut quote: Option<char> = None;
    let mut i: usize = 0;
    let ghost all = parts_from(chars@, sep, None, Seq::empty());
    assert(chars@.skip(0) =~= chars@);
    assert(chars@.subrange(0, 0) =~= Seq::<char>::empty());
    assert(parts.deep_view() + all =~= all);
    while i < chars.len()
        invariant
            start <= i <= chars.len(),
            parts.deep_view() + parts_from(
                chars@.skip(i as int),
                sep,
                quote,
                chars@.subrange(start as int, i as int),
            ) == all,
        decreases chars.len() - i,
    {
        let c = chars[i];
        let ghost rest = chars@.skip(i as int);
        let ghost part = chars@.subrange(start as int, i as int);
        let ghost before = parts.deep_view();
        assert(rest[0] == c);
        assert(rest.skip(1) =~= chars@.skip(i + 1));
        if c == sep && quote.is_none() {
            let text = text_range(&chars, start, i);
            push_item(&mut parts, trim(text.as_str()));
            start = i + 1;
            assert(chars@.subrange(start as int, i + 1) =~= Seq::<char>::empty());
            assert(before + parts_from(rest, sep, quote, part) =~= parts.deep_view() + parts_from(
                rest.skip(1),
                sep,
                None,
                Seq::empty(),
            ));
        } else {
            quote = next_quote(quote, c);
            assert(part.push(c) =~= chars@.subrange(start as int, i + 1));
        }
        i += 1;
    }
    let text = text_range(&chars, start, chars.len());
    let ghost before = parts.deep_view();
    push_item(&mut parts, trim(text.as_str()));
    assert(chars@.skip(i as int) =~= Seq::<char>::empty());
    assert(parts.deep_view() =~= all);
    if has_empty(&parts) {
        None
    } else {
        Some(parts)
    }
}

/// The commands of a pipeline.
pub fn split_pipeline(command: &str) -> (r: Option<Vec<String>>)
    ensures
        r.deep_view() == parts_of(command@, '|'),
{
    split_outside_quotes(command, '|')
}

/// The commands of a list.
pub fn split_command_list(command: &str) -> (r: Option<Vec<String>>)
    ensures
        r.deep_view() == parts_of(command@, ';'),
{
    split_outside_quotes(command, ';')
}

/// The name of a command, without call signs and quotes and in lower case.
pub open spec fn command_name(word: Seq<char>) -> Seq<char> {
    lowered(
        trimmed_of(
            trimmed_of(trimmed_of(word, CharClass::Only('&')), CharClass::Only('"')),
            CharClass::Only('\''),
        ),
    )
}

/// The name of a command, without call signs and quotes and in lower case.
pub fn normalize_command_name(command: &str) -> (r: String)
    ensures
        r@ == command_name(command@),
{
    let a = trim_class(command, CharClass::Only('&'));
    let b = trim_class(a.as_str(), CharClass::Only('"'));
    let c = trim_class(b.as_str(), CharClass::Only('\''));
    to_lowercase(c.as_str())
}

} // verus!
