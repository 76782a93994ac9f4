//! Splitting, joining and replacing texts.
#![verifier::loop_isolation(false)]

use crate::text::{chars_match_at, occurs_at, push_item, text_range, to_chars};
use vstd::prelude::*;
use vstd::string::*;
use vstd::utf8::*;

verus! {

/// The position of the first `c` in `s`, or the length of `s`.
pub open spec fn position_of(s: Seq<char>, c: char) -> nat
    decreases s.len(),
{
    if s.len() == 0 || s[0] == c {
        0
    } else {
        1 + position_of(s.skip(1), c)
    }
}

pub proof fn lemma_position(s: Seq<char>, c: char, n: nat)
    requires
        n <= s.len(),
        forall|j: int| 0 <= j < n ==> s[j] != c,
        n < s.len() ==> s[n as int] == c,
    ensures
        position_of(s, c) == n,
    decreases n,
{
    if n > 0 {
        assert forall|j: int| 0 <= j < n - 1 implies s.skip(1)[j] != c by {
            assert(s.skip(1)[j] == s[j + 1]);
        }
        lemma_position(s.skip(1), c, (n - 1) as nat);
    }
}

pub proof fn lemma_position_bounds(s: Seq<char>, c: char)
    ensures
        position_of(s, c) <= s.len(),
        forall|j: int| 0 <= j < position_of(s, c) ==> s[j] != c,
        position_of(s, c) < s.len() ==> s[position_of(s, c) as int] == c,
    decreases s.len(),
{
    if s.len() > 0 && s[0] != c {
        lemma_position_bounds(s.skip(1), c);
        assert forall|j: int| 0 <= j < position_of(s, c) implies s[j] != c by {
            if j > 0 {
                assert(s[j] == s.skip(1)[j - 1]);
            }
        }
    }
}

/// The first `c` at or after `start`, or the length.
pub fn find_char(chars: &Vec<char>, start: usize, c: char) -> (r: usize)
    requires
        start <= chars.len(),
    ensures
        start <= r <= chars.len(),
        r - start == position_of(chars@.skip(start as int), c),
        forall|j: int| start <= j < r ==> chars@[j] != c,
        r < chars.len() ==> chars@[r as int] == c,
{
    let mut i: usize = start;
    while i < chars.len() && chars[i] != c
        invariant
            start <= i <= chars.len(),
            forall|j: int| start <= j < i ==> chars@[j] != c,
        decreases chars.len() - i,
    {
        i += 1;
    }
    proof {
        lemma_position(chars@.skip(start as int), c, (i - start) as nat);
    }
    i
}

/// What stands before and after the first `c`.
pub open spec fn split_at_first(s: Seq<char>, c: char) -> Option<(Seq<char>, Seq<char>)> {
    let p = position_of(s, c);
    if p < s.len() {
        Some((s.take(p as int), s.skip(p as int + 1)))
    } else {
        None
    }
}

/// What stands before and after the first `c`.
pub fn split_once(text: &str, c: char) -> (r: Option<(String, String)>)
    ensures
        r.deep_view() == split_at_first(text@, c),
{
    let chars = to_chars(text);
    assert(chars@.skip(0) =~= chars@);
    let p = find_char(&chars, 0, c);
    if p < chars.len() {
        let left = text_range(&chars, 0, p);
        let right = text_range(&chars, p + 1, chars.len());
        assert(left@ =~= text@.take(p as int));
        assert(right@ =~= text@.skip(p as int + 1));
        Some((left, right))
    } else {
        None
    }
}

/// What stands after the last `c`, if there is one.
pub open spec fn after_last(s: Seq<char>, c: char) -> Option<Seq<char>>
    decreases s.len(),
{
    if s.len() == 0 {
        None
    } else if s.last() == c {
        Some(Seq::empty())
    } else {
        match after_last(s.drop_last(), c) {
            Some(rest) => Some(rest.push(s.last())),
            None => None,
        }
    }
}

proof fn lemma_after_last(s: Seq<char>, c: char, end: int)
    requires
        0 <= end <= s.len(),
        forall|j: int| end <= j < s.len() ==> s[j] != c,
        end > 0 ==> s[end - 1] == c,
    ensures
        after_last(s, c) == if end > 0 {
            Some(s.skip(end))
        } else {
            None
        },
    decreases s.len(),
{
    if end == s.len() {
        if s.len() > 0 {
            assert(s.skip(end) =~= Seq::<char>::empty());
        }
    } else {
        lemma_after_last(s.drop_last(), c, end);
        if end > 0 {
            assert(s.drop_last().skip(end).push(s.last()) =~= s.skip(end));
        }
    }
}

/// What stands after the last `c`, if there is one.
pub fn rsplit_after(text: &str, c: char) -> (r: Option<String>)
    ensures
        r.deep_view() == after_last(text@, c),
{
    let chars = to_chars(text);
    let mut end: usize = chars.len();
    while end > 0 && chars[end - 1] != c
        invariant
            end <= chars.len(),
            forall|j: int| end <= j < chars.len() ==> chars@[j] != c,
        decreases end,
    {
        end -= 1;
    }
    proof {
        lemma_after_last(chars@, c, end as int);
    }
    if end > 0 {
        let rest = text_range(&chars, end, chars.len());
        assert(rest@ =~= text@.skip(end as int));
        Some(rest)
    } else {
        None
    }
}

/// The parts of `s` between the separators `c`; at least one part.
pub open spec fn split_on(s: Seq<char>, c: char) -> Seq<Seq<char>>
    decreases s.len(),
{
    let p = position_of(s, c);
    if p < s.len() {
        seq![s.take(p as int)] + split_on(s.skip(p as int + 1), c)
    } else {
        seq![s]
    }
}

/// The parts of a text between the separators `c`.
pub fn split_char(text: &str, c: char) -> (r: Vec<String>)
    ensures
        r.deep_view() == split_on(text@, c),
{
    let chars = to_chars(text);
    let mut parts: Vec<String> = Vec::new();
    let mut start: usize = 0;
    assert(chars@.skip(0) =~= chars@);
    assert(parts.deep_view() + split_on(chars@, c) =~= split_on(chars@, c));
    loop
        invariant
            start <= chars.len(),
            parts.deep_view() + split_on(chars@.skip(start as int), c) == split_on(text@, c),
        decreases chars.len() - start,
    {
        let ghost rest = chars@.skip(start as int);
        let ghost before = parts.deep_view();
        let p = find_char(&chars, start, c);
        let part = text_range(&chars, start, p);
        assert(part@ =~= rest.take(p - start));
        push_item(&mut parts, part);
        if p < chars.len() {
            assert(rest.skip(p - start + 1) =~= chars@.skip(p as int + 1));
            assert(before + split_on(rest, c) =~= parts.deep_view() + split_on(
                chars@.skip(p as int + 1),
                c,
            ));
            start = p + 1;
        } else {
            assert(rest.take(p - start) =~= rest);
            assert(before + split_on(rest, c) =~= parts.deep_view());
            break;
        }
    }
    parts
}

/// A line without the carriage return that ends it.
pub open spec fn without_return(s: Seq<char>) -> Seq<char> {
    if s.len() > 0 && s.last() == '\r' {
        s.drop_last()
    } else {
        s
    }
}

/// The lines of a text: each ends with a line feed, with or without a
/// carriage return before it, or with the end of the text.
pub open spec fn lines_of(s: Seq<char>) -> Seq<Seq<char>>
    decreases s.len(),
{
    let p = position_of(s, '\n');
    if s.len() == 0 {
        Seq::empty()
    } else if p < s.len() {
        seq![without_return(s.take(p as int))] + lines_of(s.skip(p as int + 1))
    } else {
        seq![s]
    }
}

/// The lines of a text.
pub fn lines(text: &str) -> (r: Vec<String>)
    ensures
        r.deep_view() == lines_of(text@),
{
    let chars = to_chars(text);
    let mut out: Vec<String> = Vec::new();
    let mut start: usize = 0;
    assert(chars@.skip(0) =~= chars@);
    assert(out.deep_view() + lines_of(chars@) =~= lines_of(chars@));
    while start < chars.len()
        invariant
            start <= chars.len(),
            out.deep_view() + lines_of(chars@.skip(start as int)) == lines_of(text@),
        decreases chars.len() - start,
    {
        let ghost rest = chars@.skip(start as int);
        let ghost before = out.deep_view();
        let p = find_char(&chars, start, '\n');
        if p < chars.len() {
            let end: usize = if p > start && chars[p - 1] == '\r' {
                p - 1
            } else {
                p
            };
            let line = text_range(&chars, start, end);
            assert(line@ =~= without_return(rest.take(p - start)));
            push_item(&mut out, line);
            assert(rest.skip(p - start + 1) =~= chars@.skip(p as int + 1));
            assert(before + lines_of(rest) =~= out.deep_view() + lines_of(
                chars@.skip(p as int + 1),
            ));
            start = p + 1;
        } else {
            let line = text_range(&chars, start, p);
            assert(line@ =~= rest);
            push_item(&mut out, line);
            assert(chars@.skip(p as int) =~= Seq::<char>::empty());
            assert(before + lines_of(rest) =~= out.deep_view());
            assert(out.deep_view() + lines_of(chars@.skip(p as int)) =~= out.deep_view());
            start = p;
        }
    }
    assert(chars@.skip(start as int) =~= Seq::<char>::empty());
    assert(out.deep_view() + lines_of(Seq::<char>::empty()) =~= out.deep_view());
    out
}

/// The parts, with `sep` between any two of them.
pub open spec fn joined(parts: Seq<Seq<char>>, sep: Seq<char>) -> Seq<char>
    decreases parts.len(),
{
    if parts.len() == 0 {
        Seq::empty()
    } else if parts.len() == 1 {
        parts[0]
    } else {
        joined(parts.drop_last(), sep) + sep + parts.last()
    }
}

/// Joins the parts with `sep` between any two of them.
pub fn join(parts: &Vec<String>, sep: &str) -> (r: String)
    ensures
        r@ == joined(parts.deep_view(), sep@),
{
    let mut out = String::new();
    let mut i: usize = 0;
    while i < parts.len()
        invariant
            i <= parts.len(),
            out@ == joined(parts.deep_view().take(i as int), sep@),
        decreases parts.len() - i,
    {
        if i > 0 {
            out.append(sep);
        }
        out.append(parts[i].as_str());
        proof {
            let next = parts.deep_view().take(i + 1);
            assert(next.drop_last() =~= parts.deep_view().take(i as int));
            assert(next.last() == parts[i as int]@);
            assert(out@ =~= joined(next, sep@));
        }
        i += 1;
    }
    assert(parts.deep_view().take(parts.len() as int) =~= parts.deep_view());
    out
}

/// `s` with every occurrence of `from`, found from left to right without
/// overlap, replaced by `to`. An empty `from` replaces nothing.
pub open spec fn replaced(s: Seq<char>, from: Seq<char>, to: Seq<char>) -> Seq<char>
    decreases s.len(),
{
    if from.len() == 0 || s.len() == 0 {
        s
    } else if occurs_at(s, from, 0) {
        to + replaced(s.skip(from.len() as int), from, to)
    } else {
        seq![s[0]] + replaced(s.skip(1), from, to)
    }
}

/// Replaces every occurrence of a text that is not empty.
pub fn replace(text: &str, from: &str, to: &str) -> (r: String)
    ensures
        r@ == replaced(text@, from@, to@),
{
    let chars = to_chars(text);
    let part = to_chars(from);
    if part.len() == 0 {
        return text.to_owned();
    }
    let mut out = String::new();
    let mut i: usize = 0;
    assert(chars@.skip(0) =~= chars@);
    while i < chars.len()
        invariant
            i <= chars.len(),
            out@ + replaced(chars@.skip(i as int), from@, to@) == replaced(text@, from@, to@),
        decreases chars.len() - i,
    {
        let ghost rest = chars@.skip(i as int);
        let ghost before = out@;
        let hit = chars_match_at(&chars, &part, i);
        assert(hit == occurs_at(rest, from@, 0)) by {
            if i + part.len() <= chars.len() {
                assert(rest.subrange(0, part.len() as int) =~= chars@.subrange(
                    i as int,
                    i + part.len(),
                ));
            }
        }
        if hit {
            out.append(to);
            assert(rest.skip(part.len() as int) =~= chars@.skip(i + part.len()));
            assert(before + replaced(rest, from@, to@) =~= out@ + replaced(
                chars@.skip(i + part.len()),
                from@,
                to@,
            ));
            i += part.len();
        } else {
            out.push(chars[i]);
            assert(rest.skip(1) =~= chars@.skip(i + 1));
            assert(before + replaced(rest, from@, to@) =~= out@ + replaced(
                chars@.skip(i + 1),
                from@,
                to@,
            ));
            i += 1;
        }
    }
    assert(chars@.skip(i as int) =~= Seq::<char>::empty());
    assert(out@ + Seq::<char>::empty() =~= out@);
    out
}

/// The number of bytes of a text in UTF-8.
pub open spec fn utf8_len(s: Seq<char>) -> nat {
    encode_utf8(s).len()
}

/// The number of bytes of a text in UTF-8.
pub fn byte_len(text: &str) -> (r: usize)
    ensures
        r == utf8_len(text@),
{
    text.as_bytes().len()
}

/// A text of `count` copies of one character.
pub fn repeat_char(c: char, count: usize) -> (r: String)
    ensures
        r@ == Seq::new(count as nat, |i: int| c),
{
    let mut out = String::new();
    let mut i: usize = 0;
    while i < count
        invariant
            i <= count,
            out@ == Seq::new(i as nat, |i: int| c),
        decreases count - i,
    {
        out.push(c);
        i += 1;
        assert(out@ =~= Seq::new(i as nat, |i: int| c));
    }
    out
}

} // verus!
