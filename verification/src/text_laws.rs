//! What holds of texts, said of their characters.
use crate::split::{joined, lines_of, position_of, replaced, split_on, without_return};
use crate::text::{
    has_prefix, has_suffix, has_text, leading, lemma_leading, lemma_trailing, lemma_trim_bounds,
    occurs_at, trailing, trimmed, trimmed_start, whitespace, CharClass,
};
use vstd::prelude::*;

verus! {

/// Whether a word stands in a text, with any text before and after it.
pub open spec fn stands_in(word: Seq<char>, s: Seq<char>) -> bool {
    exists|p: Seq<char>, q: Seq<char>| s == #[trigger] (p + word + q)
}

/// A text holds a word exactly where it is some text, the word and some text.
pub proof fn law_has_text(s: Seq<char>, word: Seq<char>)
    ensures
        has_text(s, word) <==> stands_in(word, s),
{
    if has_text(s, word) {
        let at = choose|at: int| #[trigger] occurs_at(s, word, at);
        let p = s.take(at);
        let q = s.skip(at + word.len());
        assert(s =~= p + word + q) by {
            assert forall|i: int| at <= i < at + word.len() implies s[i] == word[i - at] by {
                assert(s.subrange(at, at + word.len())[i - at] == s[i]);
            }
        }
    }
    if stands_in(word, s) {
        let (p, q) = choose|p: Seq<char>, q: Seq<char>| s == #[trigger] (p + word + q);
        lemma_word_between(p, word, q);
    }
}

pub proof fn lemma_word_between(p: Seq<char>, word: Seq<char>, q: Seq<char>)
    ensures
        occurs_at(p + word + q, word, p.len() as int),
        has_text(p + word + q, word),
        stands_in(word, p + word + q),
{
    let s = p + word + q;
    assert(s.subrange(p.len() as int, (p.len() + word.len()) as int) =~= word);
}

/// A text starts with its start and ends with its end.
pub proof fn law_ends(a: Seq<char>, b: Seq<char>)
    ensures
        has_prefix(a + b, a),
        has_suffix(a + b, b),
{
    assert((a + b).subrange(0, a.len() as int) =~= a);
    assert((a + b).subrange((a + b).len() - b.len(), (a + b).len() as int) =~= b);
}

/// Whether a text holds no white space at its ends.
pub open spec fn tight(s: Seq<char>) -> bool {
    s.len() > 0 ==> !whitespace(s[0]) && !whitespace(s.last())
}

/// Whether a text is white space.
pub open spec fn blank(s: Seq<char>) -> bool {
    forall|i: int| 0 <= i < s.len() ==> whitespace(#[trigger] s[i])
}

/// Trimming takes away the white space around a text, and nothing else.
pub proof fn law_trim(a: Seq<char>, s: Seq<char>, b: Seq<char>)
    requires
        blank(a),
        blank(b),
        tight(s),
    ensures
        trimmed(a + s + b) == s,
{
    let all = a + s + b;
    if s.len() == 0 {
        assert forall|i: int| 0 <= i < all.len() implies whitespace(#[trigger] all[i]) by {
            if i < a.len() {
                assert(all[i] == a[i]);
            } else {
                assert(all[i] == b[i - a.len()]);
            }
        }
        lemma_leading(all, CharClass::Space, all.len());
        assert(trimmed_start(all, CharClass::Space) =~= Seq::<char>::empty());
        assert(trimmed(all) =~= s);
    } else {
        assert forall|i: int| 0 <= i < a.len() implies whitespace(#[trigger] all[i]) by {
            assert(all[i] == a[i]);
        }
        assert(all[a.len() as int] == s[0]);
        lemma_leading(all, CharClass::Space, a.len());
        let rest = trimmed_start(all, CharClass::Space);
        assert(rest =~= s + b);
        assert forall|i: int| s.len() <= i < rest.len() implies whitespace(#[trigger] rest[i]) by {
            assert(rest[i] == b[i - s.len()]);
        }
        assert(rest[s.len() - 1] == s.last());
        lemma_trailing(rest, CharClass::Space, b.len());
        assert(trimmed(all) =~= s);
    }
}

/// A text without white space at its ends is trimmed already.
pub proof fn law_tight(s: Seq<char>)
    requires
        tight(s),
    ensures
        trimmed(s) == s,
        trimmed_start(s, CharClass::Space) == s,
{
    let e = Seq::<char>::empty();
    law_trim(e, s, e);
    assert(e + s + e =~= s);
    lemma_leading(s, CharClass::Space, 0);
    assert(trimmed_start(s, CharClass::Space) =~= s);
}

/// What is trimmed has no white space at its ends, and only white space was
/// around it.
pub proof fn law_trimmed(s: Seq<char>)
    ensures
        tight(trimmed(s)),
        exists|a: Seq<char>, b: Seq<char>|
            blank(a) && blank(b) && s == #[trigger] (a + trimmed(s) + b),
{
    lemma_trim_bounds(s, CharClass::Space);
    let n = leading(s, CharClass::Space) as int;
    let rest = trimmed_start(s, CharClass::Space);
    lemma_trim_bounds(rest, CharClass::Space);
    let m = trailing(rest, CharClass::Space) as int;
    let a = s.take(n);
    let b = rest.skip(rest.len() - m);
    let t = trimmed(s);
    assert(s =~= a + t + b);
    assert forall|i: int| 0 <= i < a.len() implies whitespace(#[trigger] a[i]) by {
        assert(a[i] == s[i]);
    }
    assert forall|i: int| 0 <= i < b.len() implies whitespace(#[trigger] b[i]) by {
        assert(b[i] == rest[rest.len() - m + i]);
    }
    if t.len() > 0 {
        assert(t[0] == s[n]);
        assert(t.last() == rest[rest.len() - m - 1]);
    }
}

pub proof fn lemma_no_position(s: Seq<char>, c: char)
    requires
        !s.contains(c),
    ensures
        position_of(s, c) == s.len(),
    decreases s.len(),
{
    if s.len() > 0 {
        assert(s.contains(s[0]));
        assert(!s.skip(1).contains(c)) by {
            if s.skip(1).contains(c) {
                let i = s.skip(1).index_of(c);
                assert(s[i + 1] == c);
            }
        }
        lemma_no_position(s.skip(1), c);
    }
}

pub proof fn lemma_position_behind(a: Seq<char>, c: char, b: Seq<char>)
    requires
        !a.contains(c),
    ensures
        position_of(a + seq![c] + b, c) == a.len(),
    decreases a.len(),
{
    let s = a + seq![c] + b;
    if a.len() > 0 {
        assert(a.contains(a[0]));
        assert(s[0] == a[0]);
        assert(!a.skip(1).contains(c)) by {
            if a.skip(1).contains(c) {
                let i = a.skip(1).index_of(c);
                assert(a[i + 1] == c);
            }
        }
        lemma_position_behind(a.skip(1), c, b);
        assert(s.skip(1) =~= a.skip(1) + seq![c] + b);
    }
}

/// A text is cut into lines at its line feeds: a line, a line feed and more
/// text are that line and the lines of the text.
pub proof fn law_lines(line: Seq<char>, rest: Seq<char>)
    requires
        !line.contains('\n'),
        line.len() > 0 ==> line.last() != '\r',
    ensures
        lines_of(line + seq!['\n'] + rest) == seq![line] + lines_of(rest),
        lines_of(line + seq!['\r', '\n'] + rest) == seq![line] + lines_of(rest),
        line.len() > 0 ==> lines_of(line) == seq![line],
        lines_of(Seq::empty()) == Seq::<Seq<char>>::empty(),
{
    let s = line + seq!['\n'] + rest;
    lemma_position_behind(line, '\n', rest);
    assert(s.take(line.len() as int) =~= line);
    assert(s.skip(line.len() as int + 1) =~= rest);
    let long = line.push('\r');
    let t = line + seq!['\r', '\n'] + rest;
    assert(t =~= long + seq!['\n'] + rest);
    assert(!long.contains('\n')) by {
        if long.contains('\n') {
            let i = long.index_of('\n');
            assert(line[i] == '\n');
        }
    }
    lemma_position_behind(long, '\n', rest);
    assert(t.take(long.len() as int) =~= long);
    assert(t.skip(long.len() as int + 1) =~= rest);
    assert(without_return(long) =~= line);
    lemma_no_position(line, '\n');
}

/// A text is split at a character: a part without it, the character and more
/// text are that part and the parts of the text.
pub proof fn law_split(part: Seq<char>, c: char, rest: Seq<char>)
    requires
        !part.contains(c),
    ensures
        split_on(part + seq![c] + rest, c) == seq![part] + split_on(rest, c),
        split_on(part, c) == seq![part],
{
    let s = part + seq![c] + rest;
    lemma_position_behind(part, c, rest);
    assert(s.take(part.len() as int) =~= part);
    assert(s.skip(part.len() as int + 1) =~= rest);
    lemma_no_position(part, c);
}

/// Texts are joined in order, with the separator between any two of them.
pub proof fn law_joined(parts: Seq<Seq<char>>, part: Seq<char>, sep: Seq<char>)
    ensures
        joined(Seq::empty(), sep) == Seq::<char>::empty(),
        joined(seq![part], sep) == part,
        parts.len() > 0 ==> joined(parts.push(part), sep) == joined(parts, sep) + sep + part,
{
    assert(parts.push(part).drop_last() =~= parts);
}

pub proof fn lemma_replaced_behind(a: Seq<char>, rest: Seq<char>, from: Seq<char>, to: Seq<char>)
    requires
        from.len() > 0,
        !a.contains(from[0]),
    ensures
        replaced(a + rest, from, to) == a + replaced(rest, from, to),
    decreases a.len(),
{
    let s = a + rest;
    if a.len() == 0 {
        assert(s =~= rest);
        assert(a + replaced(rest, from, to) =~= replaced(rest, from, to));
    } else {
        assert(a.contains(a[0]));
        assert(s[0] == a[0]);
        assert(!occurs_at(s, from, 0)) by {
            if occurs_at(s, from, 0) {
                assert(s.subrange(0, from.len() as int)[0] == s[0]);
            }
        }
        assert(s.skip(1) =~= a.skip(1) + rest);
        assert(!a.skip(1).contains(from[0])) by {
            if a.skip(1).contains(from[0]) {
                let i = a.skip(1).index_of(from[0]);
                assert(a[i + 1] == from[0]);
            }
        }
        lemma_replaced_behind(a.skip(1), rest, from, to);
        assert(seq![s[0]] + (a.skip(1) + replaced(rest, from, to)) =~= a + replaced(
            rest,
            from,
            to,
        ));
    }
}

/// A word is replaced where it stands, and what stands around it is kept.
pub proof fn law_replaced(a: Seq<char>, from: Seq<char>, to: Seq<char>, rest: Seq<char>)
    requires
        from.len() > 0,
        !a.contains(from[0]),
    ensures
        replaced(a + from + rest, from, to) == a + to + replaced(rest, from, to),
        replaced(a, from, to) == a,
{
    let e = Seq::<char>::empty();
    let tail = from + rest;
    assert(a + from + rest =~= a + tail);
    lemma_replaced_behind(a, tail, from, to);
    assert(tail.subrange(0, from.len() as int) =~= from);
    assert(tail.skip(from.len() as int) =~= rest);
    assert(a + (to + replaced(rest, from, to)) =~= a + to + replaced(rest, from, to));
    lemma_replaced_behind(a, e, from, to);
    assert(a + e =~= a);
    assert(replaced(e, from, to) =~= e);
}

} // verus!
