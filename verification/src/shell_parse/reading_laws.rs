//! What single commands are read as, said of their text.
use super::commands::{bounded_read_of, call_of, inspect_of, search_of, slice_of, two_calls};
use super::content::{
    content_path_scan, content_scan, context_of, no_content, no_select, select_scan, window_scan,
    ContentView, SelectView,
};
use super::laws::{law_words_of_joined, plain_word};
use super::operation::{OperationView, ReadWindow};
use super::words::{parts_from, parts_of, quote_after, words_of};
use crate::backends::grep::{GrepContextQueryView, GrepQueryView};
use crate::case::{all_ascii, ascii_lower, ascii_lowercase, lowered};
use crate::number::{decimal, law_number_round_trip};
use crate::split::joined;
use crate::text::{starts_char, trimmed, whitespace};
use crate::text_laws::{law_tight, law_trim, lemma_no_position, lemma_position_behind, tight};
use vstd::prelude::*;
use vstd::string::*;

verus! {

// Texts of commands.

/// Whether a character is a letter in lower or upper case, or else the same.
pub open spec fn same_letter(a: char, b: char) -> bool {
    a == b || ('a' <= b && b <= 'z' && a as u32 + 32 == b as u32)
}

/// Whether a word is a given word in lower case, written in any case.
pub open spec fn spelled(word: Seq<char>, lower: Seq<char>) -> bool {
    &&& word.len() == lower.len()
    &&& forall|i: int| 0 <= i < word.len() ==> same_letter(#[trigger] word[i], lower[i])
}

/// Whether a word holds only lower-case letters, digits and signs.
pub open spec fn lower_ascii(lower: Seq<char>) -> bool {
    forall|i: int|
        0 <= i < lower.len() ==> (#[trigger] lower[i] as u32) < 128 && !('A' <= lower[i]
            && lower[i] <= 'Z')
}

/// The lower case of a word does not depend on how it is written.
pub proof fn lemma_spelled(word: Seq<char>, lower: Seq<char>)
    requires
        spelled(word, lower),
        lower_ascii(lower),
    ensures
        lowered(word) == lower,
        ascii_lowercase(word) == lower,
{
    assert(all_ascii(word)) by {
        assert forall|i: int| 0 <= i < word.len() implies (#[trigger] word[i] as u32) < 128 by {
            assert(same_letter(word[i], lower[i]));
        }
    }
    assert forall|i: int| 0 <= i < word.len() implies ascii_lower(#[trigger] word[i])
        == lower[i] by {
        assert(same_letter(word[i], lower[i]));
        lemma_lower_letter(word[i], lower[i]);
    }
    assert(ascii_lowercase(word) =~= lower);
}

proof fn lemma_lower_letter(a: char, b: char)
    requires
        same_letter(a, b),
        !('A' <= b && b <= 'Z'),
    ensures
        ascii_lower(a) == b,
{
}

/// Whether a word can stand in a command as it is: it is not empty and holds
/// no white space, quotes, pipes or semicolons.
pub open spec fn bare(word: Seq<char>) -> bool {
    &&& word.len() > 0
    &&& forall|i: int|
        0 <= i < word.len() ==> !whitespace(#[trigger] word[i]) && word[i] != '"' && word[i]
            != '\'' && word[i] != '|' && word[i] != ';'
}

/// Whether all words can stand in a command as they are.
pub open spec fn all_bare(words: Seq<Seq<char>>) -> bool {
    words.len() > 0 && forall|i: int| 0 <= i < words.len() ==> bare(#[trigger] words[i])
}

/// A command with the given words.
pub open spec fn call(words: Seq<Seq<char>>) -> Seq<char> {
    joined(words, seq![' '])
}

/// Whether a text holds no quotes, pipes and semicolons, and no white space
/// at its ends.
pub open spec fn calm(s: Seq<char>) -> bool {
    &&& s.len() > 0
    &&& tight(s)
    &&& forall|i: int|
        0 <= i < s.len() ==> #[trigger] s[i] != '"' && s[i] != '\'' && s[i] != '|' && s[i] != ';'
}

#[verifier::rlimit(40)]
pub proof fn lemma_call_is_calm(words: Seq<Seq<char>>)
    requires
        all_bare(words),
    ensures
        calm(call(words)),
    decreases words.len(),
{
    let s = call(words);
    let last = words.last();
    assert(bare(words[words.len() - 1]));
    assert(bare(words[0]));
    if words.len() > 1 {
        let before = words.drop_last();
        assert forall|i: int| 0 <= i < before.len() implies bare(#[trigger] before[i]) by {
            assert(before[i] == words[i]);
        }
        lemma_call_is_calm(before);
        let t = call(before);
        assert(s =~= t + seq![' '] + last);
        assert forall|i: int| 0 <= i < s.len() implies #[trigger] s[i] != '"' && s[i] != '\''
            && s[i] != '|' && s[i] != ';' by {
            if i < t.len() {
                assert(s[i] == t[i]);
            } else if i > t.len() {
                assert(s[i] == last[i - t.len() - 1]);
            }
        }
        assert(s[0] == t[0]);
        assert(s.last() == last.last());
        assert(!whitespace(last[last.len() - 1]));
    } else {
        assert(s == words[0]);
        assert(!whitespace(s[0]));
        assert(!whitespace(s[s.len() - 1]));
    }
}

pub proof fn lemma_parts_calm(s: Seq<char>, sep: char, part: Seq<char>)
    requires
        forall|i: int|
            0 <= i < s.len() ==> #[trigger] s[i] != '"' && s[i] != '\'' && s[i] != sep,
    ensures
        parts_from(s, sep, None, part) == seq![trimmed(part + s)],
    decreases s.len(),
{
    if s.len() == 0 {
        assert(part + s =~= part);
    } else {
        assert(quote_after(None, s[0]) == None::<char>);
        let rest = s.skip(1);
        assert forall|i: int| 0 <= i < rest.len() implies #[trigger] rest[i] != '"' && rest[i]
            != '\'' && rest[i] != sep by {
            assert(rest[i] == s[i + 1]);
        }
        lemma_parts_calm(rest, sep, part.push(s[0]));
        assert(part.push(s[0]) + rest =~= part + s);
    }
}

pub proof fn lemma_parts_step(s: Seq<char>, sep: char, part: Seq<char>, more: Seq<char>)
    requires
        forall|i: int|
            0 <= i < s.len() ==> #[trigger] s[i] != '"' && s[i] != '\'' && s[i] != sep,
    ensures
        parts_from(s + seq![sep] + more, sep, None, part) == seq![trimmed(part + s)] + parts_from(
            more,
            sep,
            None,
            Seq::empty(),
        ),
    decreases s.len(),
{
    let all = s + seq![sep] + more;
    if s.len() == 0 {
        assert(all[0] == sep);
        assert(all.skip(1) =~= more);
        assert(part + s =~= part);
    } else {
        assert(all[0] == s[0]);
        assert(quote_after(None, s[0]) == None::<char>);
        let rest = s.skip(1);
        assert forall|i: int| 0 <= i < rest.len() implies #[trigger] rest[i] != '"' && rest[i]
            != '\'' && rest[i] != sep by {
            assert(rest[i] == s[i + 1]);
        }
        assert(all.skip(1) =~= rest + seq![sep] + more);
        lemma_parts_step(rest, sep, part.push(s[0]), more);
        assert(part.push(s[0]) + rest =~= part + s);
    }
}

/// A calm command has one part.
pub proof fn lemma_one_part(s: Seq<char>, sep: char)
    requires
        calm(s),
        sep == '|' || sep == ';',
    ensures
        parts_of(s, sep) == Some(seq![s]),
{
    lemma_parts_calm(s, sep, Seq::empty());
    assert(Seq::<char>::empty() + s =~= s);
    law_tight(s);
    assert(seq![s][0] == s);
}

/// Two calm commands with a separator between them are two parts.
#[verifier::rlimit(40)]
pub proof fn lemma_two_parts(a: Seq<char>, b: Seq<char>, sep: char)
    requires
        calm(a),
        calm(b),
        sep == '|' || sep == ';',
    ensures
        parts_of(a + seq![' ', sep, ' '] + b, sep) == Some(seq![a, b]),
{
    let left = a + seq![' '];
    let right = seq![' '] + b;
    let s = a + seq![' ', sep, ' '] + b;
    assert(s =~= left + seq![sep] + right);
    assert forall|i: int| 0 <= i < left.len() implies #[trigger] left[i] != '"' && left[i]
        != '\'' && left[i] != sep by {
        if i < a.len() {
            assert(left[i] == a[i]);
        }
    }
    assert forall|i: int| 0 <= i < right.len() implies #[trigger] right[i] != '"' && right[i]
        != '\'' && right[i] != sep by {
        if i > 0 {
            assert(right[i] == b[i - 1]);
        }
    }
    lemma_parts_step(left, sep, Seq::empty(), right);
    lemma_parts_calm(right, sep, Seq::empty());
    let e = Seq::<char>::empty();
    law_trim(e, a, seq![' ']);
    law_trim(seq![' '], b, e);
    assert(e + left =~= e + a + seq![' ']);
    assert(e + right =~= seq![' '] + b + e);
    let parts = parts_from(s, sep, None, e);
    assert(parts =~= seq![a, b]);
    assert(parts[0] == a && parts[1] == b);
}

/// A command made of words is read as a call of the first with the others.
pub proof fn law_call(words: Seq<Seq<char>>)
    requires
        all_bare(words),
    ensures
        call_of(call(words)) == Some((lowered(words[0]), words.skip(1))),
        !call(words).contains('|'),
        parts_of(call(words), '|') == Some(seq![call(words)]),
{
    reveal_strlit(" ");
    assert(" "@ =~= seq![' ']);
    assert forall|i: int| 0 <= i < words.len() implies plain_word(#[trigger] words[i]) by {
        assert(bare(words[i]));
        assert(words[i][0] != '"');
    }
    law_words_of_joined(words);
    lemma_call_is_calm(words);
    lemma_one_part(call(words), '|');
    if call(words).contains('|') {
        let i = call(words).index_of('|');
        assert(call(words)[i] == '|');
    }
}

/// Two commands with a pipe between them are read as their two calls.
pub proof fn law_pipe(left: Seq<Seq<char>>, right: Seq<Seq<char>>)
    requires
        all_bare(left),
        all_bare(right),
    ensures
        two_calls(call(left) + seq![' ', '|', ' '] + call(right)) == Some(
            ((lowered(left[0]), left.skip(1)), (lowered(right[0]), right.skip(1))),
        ),
        parts_of(call(left) + seq![' ', '|', ' '] + call(right), '|') == Some(
            seq![call(left), call(right)],
        ),
        (call(left) + seq![' ', '|', ' '] + call(right)).contains('|'),
{
    law_call(left);
    law_call(right);
    lemma_call_is_calm(left);
    lemma_call_is_calm(right);
    lemma_two_parts(call(left), call(right), '|');
    let s = call(left) + seq![' ', '|', ' '] + call(right);
    assert(s[call(left).len() as int + 1] == '|');
}

// Numbers.

#[verifier::rlimit(40)]
pub proof fn lemma_decimal_is_bare(n: nat)
    ensures
        bare(decimal(n)),
        !decimal(n).contains(','),
        decimal(n)[0] != '-',
    decreases n,
{
    if n >= 10 {
        lemma_decimal_is_bare(n / 10);
        let init = decimal(n / 10);
        let all = decimal(n);
        assert(all =~= init.push(crate::number::digit(n % 10)));
        assert forall|i: int| 0 <= i < all.len() implies !whitespace(#[trigger] all[i]) && all[i]
            != '"' && all[i] != '\'' && all[i] != '|' && all[i] != ';' && all[i] != ',' by {
            if i < init.len() {
                assert(all[i] == init[i]);
                assert(init.contains(init[i]));
            } else {
                lemma_digit_char(n % 10);
            }
        }
        assert(all[0] == init[0]);
        if all.contains(',') {
            let i = all.index_of(',');
            assert(all[i] == ',');
        }
    } else {
        lemma_digit_char(n);
        assert(decimal(n)[0] == crate::number::digit(n));
        if decimal(n).contains(',') {
            let i = decimal(n).index_of(',');
            assert(decimal(n)[i] == ',');
        }
    }
}

proof fn lemma_digit_char(n: nat)
    requires
        n < 10,
    ensures
        '0' <= crate::number::digit(n) && crate::number::digit(n) <= '9',
        !whitespace(crate::number::digit(n)),
{
}

/// A context of two numbers is so many lines before and so many behind, in
/// this order; one number is for both.
pub proof fn law_context_numbers(before: usize, after: usize)
    ensures
        context_of(decimal(before as nat) + seq![','] + decimal(after as nat)) == Some(
            (before, after),
        ),
        context_of(decimal(before as nat)) == Some((before, before)),
{
    let b = decimal(before as nat);
    let a = decimal(after as nat);
    lemma_decimal_is_bare(before as nat);
    lemma_decimal_is_bare(after as nat);
    law_number_round_trip(before);
    law_number_round_trip(after);
    let s = b + seq![','] + a;
    lemma_position_behind(b, ',', a);
    assert(s.take(b.len() as int) =~= b);
    assert(s.skip(b.len() as int + 1) =~= a);
    lemma_no_position(b, ',');
}

// Words of the language.

/// The options of searches and readings are different words in lower case.
pub proof fn lemma_options()
    ensures
        lower_ascii("-pattern"@),
        lower_ascii("-path"@),
        lower_ascii("-literalpath"@),
        lower_ascii("-casesensitive"@),
        lower_ascii("-simplematch"@),
        lower_ascii("-context"@),
        lower_ascii("-raw"@),
        lower_ascii("-totalcount"@),
        lower_ascii("-tail"@),
        lower_ascii("-skip"@),
        lower_ascii("-first"@),
        "-pattern"@.len() == 8 && "-pattern"@[1] == 'p' && "-pattern"@[0] == '-',
        "-path"@.len() == 5 && "-path"@[1] == 'p' && "-path"@[0] == '-',
        "-literalpath"@.len() == 12 && "-literalpath"@[1] == 'l' && "-literalpath"@[0] == '-',
        "-casesensitive"@.len() == 14 && "-casesensitive"@[0] == '-',
        "-simplematch"@.len() == 12 && "-simplematch"@[1] == 's' && "-simplematch"@[0] == '-',
        "-context"@.len() == 8 && "-context"@[1] == 'c' && "-context"@[0] == '-',
        "-raw"@.len() == 4 && "-raw"@[0] == '-',
        "-totalcount"@.len() == 11 && "-totalcount"@[1] == 't' && "-totalcount"@[0] == '-',
        "-tail"@.len() == 5 && "-tail"@[1] == 't' && "-tail"@[0] == '-',
        "-skip"@.len() == 5 && "-skip"@[1] == 's' && "-skip"@[0] == '-',
        "-first"@.len() == 6 && "-first"@[0] == '-',
        "-erroraction"@.len() == 12 && "-erroraction"@[1] == 'e' && "-erroraction"@[0] == '-',
        "-ea"@.len() == 3 && "-ea"@[0] == '-',
{
    reveal_strlit("-pattern");
    reveal_strlit("-path");
    reveal_strlit("-literalpath");
    reveal_strlit("-casesensitive");
    reveal_strlit("-simplematch");
    reveal_strlit("-context");
    reveal_strlit("-raw");
    reveal_strlit("-totalcount");
    reveal_strlit("-tail");
    reveal_strlit("-skip");
    reveal_strlit("-first");
    reveal_strlit("-erroraction");
    reveal_strlit("-ea");
}

/// The names of the commands are different words in lower case.
proof fn lemma_commands()
    ensures
        lower_ascii("select-string"@),
        lower_ascii("get-content"@),
        lower_ascii("select-object"@),
        lower_ascii("get-childitem"@),
{
    reveal_strlit("select-string");
    reveal_strlit("get-content");
    reveal_strlit("select-object");
    reveal_strlit("get-childitem");
}

// Searches.

/// The words of a search, in any case.
pub open spec fn search_words(
    name: Seq<char>,
    path_word: Seq<char>,
    path: Seq<char>,
    pattern_word: Seq<char>,
    pattern: Seq<char>,
) -> Seq<Seq<char>> {
    seq![name, path_word, path, pattern_word, pattern]
}

/// Whether the words of a search are what they should be.
pub open spec fn is_search_call(
    name: Seq<char>,
    path_word: Seq<char>,
    path: Seq<char>,
    pattern_word: Seq<char>,
    pattern: Seq<char>,
) -> bool {
    &&& spelled(name, "select-string"@)
    &&& spelled(path_word, "-path"@)
    &&& spelled(pattern_word, "-pattern"@)
    &&& bare(name) && bare(path_word) && bare(path) && bare(pattern_word) && bare(pattern)
}

/// A search names its path and its pattern, takes the pattern as a pattern
/// without regard to case, and shows at most two hundred matches.
pub proof fn law_search(
    name: Seq<char>,
    path_word: Seq<char>,
    path: Seq<char>,
    pattern_word: Seq<char>,
    pattern: Seq<char>,
    cwd: Option<Seq<char>>,
)
    requires
        is_search_call(name, path_word, path, pattern_word, pattern),
    ensures
        search_of(call(search_words(name, path_word, path, pattern_word, pattern)), cwd) == Some(
            OperationView::Grep(
                GrepQueryView {
                    roots: seq![path],
                    pattern,
                    case_sensitive: false,
                    simple_match: false,
                    limit: 200,
                },
            ),
        ),
{
    lemma_options();
    lemma_commands();
    lemma_spelled(name, "select-string"@);
    lemma_spelled(path_word, "-path"@);
    lemma_spelled(pattern_word, "-pattern"@);
    let words = search_words(name, path_word, path, pattern_word, pattern);
    law_call(words);
    let args = words.skip(1);
    assert(args.len() == 4 && args[0] == path_word && args[1] == path && args[2] == pattern_word
        && args[3] == pattern);
    let o0 = no_select();
    let o1 = SelectView { roots: o0.roots.push(path), ..o0 };
    let o2 = SelectView { pattern: Some(pattern), ..o1 };
    assert(select_scan(args, 4, o2, true) == Some(o2));
    assert(select_scan(args, 2, o1, true) == Some(o2));
    assert(select_scan(args, 0, o0, true) == Some(o2));
    assert(o1.roots =~= seq![path]);
}

/// A search with a context asks for so many lines before a match and so many
/// behind it.
#[verifier::rlimit(40)]
pub proof fn law_search_context(
    name: Seq<char>,
    path_word: Seq<char>,
    path: Seq<char>,
    pattern_word: Seq<char>,
    pattern: Seq<char>,
    context_word: Seq<char>,
    before: usize,
    after: usize,
    cwd: Option<Seq<char>>,
)
    requires
        is_search_call(name, path_word, path, pattern_word, pattern),
        spelled(context_word, "-context"@),
        bare(context_word),
    ensures
        search_of(
            call(
                search_words(name, path_word, path, pattern_word, pattern) + seq![
                    context_word,
                    decimal(before as nat) + seq![','] + decimal(after as nat),
                ],
            ),
            cwd,
        ) == Some(
            OperationView::GrepContext(
                GrepContextQueryView {
                    roots: seq![path],
                    pattern,
                    before,
                    after,
                    case_sensitive: false,
                    simple_match: false,
                    limit: 200,
                },
            ),
        ),
        search_of(
            call(
                search_words(name, path_word, path, pattern_word, pattern) + seq![
                    context_word,
                    decimal(before as nat),
                ],
            ),
            cwd,
        ) == Some(
            OperationView::GrepContext(
                GrepContextQueryView {
                    roots: seq![path],
                    pattern,
                    before,
                    after: before,
                    case_sensitive: false,
                    simple_match: false,
                    limit: 200,
                },
            ),
        ),
{
    let b = decimal(before as nat);
    let a = decimal(after as nat);
    law_context_numbers(before, after);
    lemma_decimal_is_bare(before as nat);
    lemma_decimal_is_bare(after as nat);
    let both = b + seq![','] + a;
    assert(bare(both)) by {
        assert forall|i: int| 0 <= i < both.len() implies !whitespace(#[trigger] both[i])
            && both[i] != '"' && both[i] != '\'' && both[i] != '|' && both[i] != ';' by {
            if i < b.len() {
                assert(both[i] == b[i]);
            } else if i > b.len() {
                assert(both[i] == a[i - b.len() - 1]);
            }
        }
    }
    lemma_search_context(
        name,
        path_word,
        path,
        pattern_word,
        pattern,
        context_word,
        both,
        before,
        after,
        cwd,
    );
    lemma_search_context(
        name,
        path_word,
        path,
        pattern_word,
        pattern,
        context_word,
        b,
        before,
        before,
        cwd,
    );
}

#[verifier::rlimit(40)]
proof fn lemma_search_context(
    name: Seq<char>,
    path_word: Seq<char>,
    path: Seq<char>,
    pattern_word: Seq<char>,
    pattern: Seq<char>,
    context_word: Seq<char>,
    value: Seq<char>,
    before: usize,
    after: usize,
    cwd: Option<Seq<char>>,
)
    requires
        is_search_call(name, path_word, path, pattern_word, pattern),
        spelled(context_word, "-context"@),
        bare(context_word),
        bare(value),
        context_of(value) == Some((before, after)),
    ensures
        search_of(
            call(
                search_words(name, path_word, path, pattern_word, pattern) + seq![
                    context_word,
                    value,
                ],
            ),
            cwd,
        ) == Some(
            OperationView::GrepContext(
                GrepContextQueryView {
                    roots: seq![path],
                    pattern,
                    before,
                    after,
                    case_sensitive: false,
                    simple_match: false,
                    limit: 200,
                },
            ),
        ),
{
    lemma_options();
    lemma_commands();
    lemma_spelled(name, "select-string"@);
    lemma_spelled(path_word, "-path"@);
    lemma_spelled(pattern_word, "-pattern"@);
    lemma_spelled(context_word, "-context"@);
    let words = search_words(name, path_word, path, pattern_word, pattern) + seq![
        context_word,
        value,
    ];
    assert(words.len() == 7 && words[0] == name && words[1] == path_word && words[2] == path
        && words[3] == pattern_word && words[4] == pattern && words[5] == context_word && words[6]
        == value);
    law_call(words);
    let args = words.skip(1);
    assert(args.len() == 6 && args[0] == path_word && args[1] == path && args[2] == pattern_word
        && args[3] == pattern && args[4] == context_word && args[5] == value);
    let o0 = no_select();
    let o1 = SelectView { roots: o0.roots.push(path), ..o0 };
    let o2 = SelectView { pattern: Some(pattern), ..o1 };
    let o3 = SelectView { context: Some((before, after)), ..o2 };
    assert(select_scan(args, 6, o3, true) == Some(o3));
    assert(select_scan(args, 4, o2, true) == Some(o3));
    assert(select_scan(args, 2, o1, true) == Some(o3));
    assert(select_scan(args, 0, o0, true) == Some(o3));
    assert(o1.roots =~= seq![path]);
}

/// A search minds case, or takes its pattern literally, exactly where it is
/// told so.
pub proof fn law_search_flags(
    name: Seq<char>,
    path_word: Seq<char>,
    path: Seq<char>,
    pattern_word: Seq<char>,
    pattern: Seq<char>,
    case_word: Seq<char>,
    simple_word: Seq<char>,
    cwd: Option<Seq<char>>,
)
    requires
        is_search_call(name, path_word, path, pattern_word, pattern),
        spelled(case_word, "-casesensitive"@),
        spelled(simple_word, "-simplematch"@),
        bare(case_word),
        bare(simple_word),
    ensures
        search_of(
            call(
                search_words(name, path_word, path, pattern_word, pattern) + seq![case_word],
            ),
            cwd,
        ) == Some(
            OperationView::Grep(
                GrepQueryView {
                    roots: seq![path],
                    pattern,
                    case_sensitive: true,
                    simple_match: false,
                    limit: 200,
                },
            ),
        ),
        search_of(
            call(
                search_words(name, path_word, path, pattern_word, pattern) + seq![simple_word],
            ),
            cwd,
        ) == Some(
            OperationView::Grep(
                GrepQueryView {
                    roots: seq![path],
                    pattern,
                    case_sensitive: false,
                    simple_match: true,
                    limit: 200,
                },
            ),
        ),
{
    lemma_options();
    lemma_spelled(case_word, "-casesensitive"@);
    lemma_spelled(simple_word, "-simplematch"@);
    lemma_search_flag(name, path_word, path, pattern_word, pattern, case_word, true, cwd);
    lemma_search_flag(name, path_word, path, pattern_word, pattern, simple_word, false, cwd);
}

proof fn lemma_search_flag(
    name: Seq<char>,
    path_word: Seq<char>,
    path: Seq<char>,
    pattern_word: Seq<char>,
    pattern: Seq<char>,
    word: Seq<char>,
    case: bool,
    cwd: Option<Seq<char>>,
)
    requires
        is_search_call(name, path_word, path, pattern_word, pattern),
        lowered(word) == if case {
            "-casesensitive"@
        } else {
            "-simplematch"@
        },
        bare(word),
    ensures
        search_of(
            call(search_words(name, path_word, path, pattern_word, pattern) + seq![word]),
            cwd,
        ) == Some(
            OperationView::Grep(
                GrepQueryView {
                    roots: seq![path],
                    pattern,
                    case_sensitive: case,
                    simple_match: !case,
                    limit: 200,
                },
            ),
        ),
{
    lemma_options();
    lemma_commands();
    lemma_spelled(name, "select-string"@);
    lemma_spelled(path_word, "-path"@);
    lemma_spelled(pattern_word, "-pattern"@);
    let o0 = no_select();
    let o1 = SelectView { roots: o0.roots.push(path), ..o0 };
    let o2 = SelectView { pattern: Some(pattern), ..o1 };
    let o3 = SelectView { case_sensitive: case, simple_match: !case, ..o2 };
    assert(o1.roots =~= seq![path]);
    let words = search_words(name, path_word, path, pattern_word, pattern) + seq![word];
    assert(words.len() == 6 && words[0] == name && words[1] == path_word && words[2] == path
        && words[3] == pattern_word && words[4] == pattern && words[5] == word);
    law_call(words);
    let args = words.skip(1);
    assert(args.len() == 5 && args[0] == path_word && args[1] == path && args[2] == pattern_word
        && args[3] == pattern && args[4] == word);
    assert(select_scan(args, 5, o3, true) == Some(o3));
    assert(select_scan(args, 4, o2, true) == Some(o3));
    assert(select_scan(args, 2, o1, true) == Some(o3));
    assert(select_scan(args, 0, o0, true) == Some(o3));
}

/// A search without options takes its first word for the pattern and the
/// others for where to look.
#[verifier::spinoff_prover]
#[verifier::rlimit(80)]
pub proof fn law_search_by_place(
    name: Seq<char>,
    pattern: Seq<char>,
    path: Seq<char>,
    cwd: Option<Seq<char>>,
)
    requires
        spelled(name, "select-string"@),
        bare(name) && bare(pattern) && bare(path),
        lowered(pattern)[0] != '-' && lowered(pattern).len() > 0,
        lowered(path)[0] != '-' && lowered(path).len() > 0,
    ensures
        search_of(call(seq![name, pattern, path]), cwd) == Some(
            OperationView::Grep(
                GrepQueryView {
                    roots: seq![path],
                    pattern,
                    case_sensitive: false,
                    simple_match: false,
                    limit: 200,
                },
            ),
        ),
        cwd matches Some(dir) ==> search_of(call(seq![name, pattern]), cwd) == Some(
            OperationView::Grep(
                GrepQueryView {
                    roots: seq![dir],
                    pattern,
                    case_sensitive: false,
                    simple_match: false,
                    limit: 200,
                },
            ),
        ),
{
    lemma_options();
    lemma_commands();
    lemma_spelled(name, "select-string"@);
    lemma_not_path_option(pattern);
    lemma_not_path_option(path);
    let o0 = no_select();
    let o1 = SelectView { positional: o0.positional.push(pattern), ..o0 };
    assert(o1.positional =~= seq![pattern]);
    assert(o1.positional.skip(1) =~= Seq::<Seq<char>>::empty());
    assert(seq![pattern, path].skip(1) =~= seq![path]);
    let words = seq![name, pattern, path];
    law_call(words);
    assert(words.skip(1) =~= seq![pattern, path]);
    lemma_free_words(pattern, path);
    let words = seq![name, pattern];
    law_call(words);
    assert(words.skip(1) =~= seq![pattern]);
}

proof fn lemma_free_words(pattern: Seq<char>, path: Seq<char>)
    requires
        lowered(pattern).len() > 0 && lowered(pattern)[0] != '-',
        lowered(path).len() > 0 && lowered(path)[0] != '-',
    ensures
        select_scan(seq![pattern, path], 0, no_select(), true) == Some(
            SelectView { positional: seq![pattern, path], ..no_select() },
        ),
        select_scan(seq![pattern], 0, no_select(), true) == Some(
            SelectView { positional: seq![pattern], ..no_select() },
        ),
{
    lemma_options();
    lemma_not_path_option(pattern);
    lemma_not_path_option(path);
    let o0 = no_select();
    let o1 = SelectView { positional: o0.positional.push(pattern), ..o0 };
    let o2 = SelectView { positional: o1.positional.push(path), ..o1 };
    assert(o1.positional =~= seq![pattern]);
    assert(o2.positional =~= seq![pattern, path]);
    let args = seq![pattern, path];
    assert(select_scan(args, 2, o2, true) == Some(o2));
    assert(select_scan(args, 1, o1, true) == Some(o2));
    assert(select_scan(args, 0, o0, true) == Some(o2));
    let args = seq![pattern];
    assert(select_scan(args, 1, o1, true) == Some(o1));
    assert(select_scan(args, 0, o0, true) == Some(o1));
}

// Readings.

/// A reading of a window of lines skips so many lines and shows so many, in
/// whatever order it says so; it skips none where it does not say.
#[verifier::rlimit(40)]
pub proof fn law_window(
    name: Seq<char>,
    path: Seq<char>,
    select: Seq<char>,
    skip_word: Seq<char>,
    first_word: Seq<char>,
    skip: usize,
    first: usize,
)
    requires
        spelled(name, "get-content"@),
        spelled(select, "select-object"@),
        spelled(skip_word, "-skip"@),
        spelled(first_word, "-first"@),
        bare(name) && bare(path) && bare(select) && bare(skip_word) && bare(first_word),
        lowered(path).len() > 0 && lowered(path)[0] != '-',
    ensures
        slice_of(
            call(seq![name, path]) + seq![' ', '|', ' '] + call(
                seq![
                    select,
                    skip_word,
                    decimal(skip as nat),
                    first_word,
                    decimal(first as nat),
                ],
            ),
        ) == Some(OperationView::Slice { path, skip, first }),
        slice_of(
            call(seq![name, path]) + seq![' ', '|', ' '] + call(
                seq![
                    select,
                    first_word,
                    decimal(first as nat),
                    skip_word,
                    decimal(skip as nat),
                ],
            ),
        ) == Some(OperationView::Slice { path, skip, first }),
        slice_of(
            call(seq![name, path]) + seq![' ', '|', ' '] + call(
                seq![select, first_word, decimal(first as nat)],
            ),
        ) == Some(OperationView::Slice { path, skip: 0, first }),
        slice_of(
            call(seq![name, path]) + seq![' ', '|', ' '] + call(
                seq![select, skip_word, decimal(skip as nat)],
            ),
        ) is None,
{
    lemma_options();
    lemma_commands();
    lemma_spelled(name, "get-content"@);
    lemma_spelled(select, "select-object"@);
    lemma_spelled(skip_word, "-skip"@);
    lemma_spelled(first_word, "-first"@);
    let s = decimal(skip as nat);
    let f = decimal(first as nat);
    lemma_decimal_is_bare(skip as nat);
    lemma_decimal_is_bare(first as nat);
    law_number_round_trip(skip);
    law_number_round_trip(first);
    let left = seq![name, path];
    let la = left.skip(1);
    assert(la.len() == 1 && la[0] == path);
    lemma_not_path_option(path);
    let free = Seq::<Seq<char>>::empty().push(path);
    assert(content_path_scan(la, 1, free) == Some(path));
    assert(content_path_scan(la, 0, Seq::empty()) == Some(path));
    let r1 = seq![select, skip_word, s, first_word, f];
    let r2 = seq![select, first_word, f, skip_word, s];
    let r3 = seq![select, first_word, f];
    let r4 = seq![select, skip_word, s];
    law_pipe(left, r1);
    law_pipe(left, r2);
    law_pipe(left, r3);
    law_pipe(left, r4);
    let a1 = r1.skip(1);
    assert(a1.len() == 4 && a1[0] == skip_word && a1[1] == s && a1[2] == first_word && a1[3] == f);
    assert(window_scan(a1, 4, Some(skip), Some(first)) == Some((skip, first)));
    assert(window_scan(a1, 2, Some(skip), None) == Some((skip, first)));
    assert(window_scan(a1, 0, None, None) == Some((skip, first)));
    let a2 = r2.skip(1);
    assert(a2.len() == 4 && a2[0] == first_word && a2[1] == f && a2[2] == skip_word && a2[3] == s);
    assert(window_scan(a2, 4, Some(skip), Some(first)) == Some((skip, first)));
    assert(window_scan(a2, 2, None, Some(first)) == Some((skip, first)));
    assert(window_scan(a2, 0, None, None) == Some((skip, first)));
    let a3 = r3.skip(1);
    assert(a3.len() == 2 && a3[0] == first_word && a3[1] == f);
    assert(window_scan(a3, 2, None, Some(first)) == Some((0usize, first)));
    assert(window_scan(a3, 0, None, None) == Some((0usize, first)));
    let a4 = r4.skip(1);
    assert(a4.len() == 2 && a4[0] == skip_word && a4[1] == s);
    assert(window_scan(a4, 2, Some(skip), None) is None);
    assert(window_scan(a4, 0, None, None) is None);
}

pub proof fn lemma_not_path_option(path: Seq<char>)
    requires
        lowered(path).len() > 0,
        lowered(path)[0] != '-',
    ensures
        !super::arguments::path_option(lowered(path)),
        !super::arguments::path_colon_option(lowered(path)),
        !starts_char(lowered(path), '-'),
{
    let t = lowered(path);
    lemma_options();
    reveal_strlit("-path:");
    reveal_strlit("-literalpath:");
    if crate::text::has_prefix(t, "-path:"@) {
        assert(t.subrange(0, 6)[0] == t[0]);
    }
    if crate::text::has_prefix(t, "-literalpath:"@) {
        assert(t.subrange(0, 13)[0] == t[0]);
    }
}

/// The first lines of a file are asked for by a count, and the last ones by
/// another; without either the whole file is shown, raw where it is asked for.
pub proof fn law_reading(
    name: Seq<char>,
    path: Seq<char>,
    head_word: Seq<char>,
    tail_word: Seq<char>,
    raw_word: Seq<char>,
    count: usize,
)
    requires
        spelled(name, "get-content"@),
        spelled(head_word, "-totalcount"@),
        spelled(tail_word, "-tail"@),
        spelled(raw_word, "-raw"@),
        bare(name) && bare(path) && bare(head_word) && bare(tail_word) && bare(raw_word),
        lowered(path).len() > 0 && lowered(path)[0] != '-',
    ensures
        bounded_read_of(call(seq![name, path, head_word, decimal(count as nat)])) == Some(
            OperationView::ReadLines { path, window: ReadWindow::Head, count },
        ),
        bounded_read_of(call(seq![name, path, tail_word, decimal(count as nat)])) == Some(
            OperationView::ReadLines { path, window: ReadWindow::Tail, count },
        ),
        inspect_of(call(seq![name, path])) == Some(OperationView::InspectFile { path, raw: false }),
        inspect_of(call(seq![name, raw_word, path])) == Some(
            OperationView::InspectFile { path, raw: true },
        ),
        inspect_of(call(seq![name, path, head_word, decimal(count as nat)])) is None,
        inspect_of(call(seq![name, path, tail_word, decimal(count as nat)])) is None,
{
    lemma_read_head(name, path, head_word, count);
    lemma_read_tail(name, path, tail_word, count);
    lemma_inspect(name, path, raw_word);
}

proof fn lemma_read_head(name: Seq<char>, path: Seq<char>, head_word: Seq<char>, count: usize)
    requires
        spelled(name, "get-content"@),
        spelled(head_word, "-totalcount"@),
        bare(name) && bare(path) && bare(head_word),
        lowered(path).len() > 0 && lowered(path)[0] != '-',
    ensures
        bounded_read_of(call(seq![name, path, head_word, decimal(count as nat)])) == Some(
            OperationView::ReadLines { path, window: ReadWindow::Head, count },
        ),
        inspect_of(call(seq![name, path, head_word, decimal(count as nat)])) is None,
{
    lemma_options();
    lemma_commands();
    lemma_spelled(name, "get-content"@);
    lemma_spelled(head_word, "-totalcount"@);
    let n = decimal(count as nat);
    lemma_decimal_is_bare(count as nat);
    law_number_round_trip(count);
    lemma_not_path_option(path);
    lemma_not_colon("-totalcount"@);
    let o0 = no_content();
    let o1 = ContentView { positional: o0.positional.push(path), ..o0 };
    assert(o1.positional =~= seq![path]);
    let w1 = seq![name, path, head_word, n];
    law_call(w1);
    let a1 = w1.skip(1);
    assert(a1.len() == 3 && a1[0] == path && a1[1] == head_word && a1[2] == n);
    let o2 = ContentView { head: Some(count), ..o1 };
    assert(content_scan(a1, 3, o2, true) == Some(o2));
    assert(content_scan(a1, 1, o1, true) == Some(o2));
    assert(content_scan(a1, 0, o0, true) == Some(o2));
    assert(content_scan(a1, 1, o1, false) is None);
    assert(content_scan(a1, 0, o0, false) is None);
}

proof fn lemma_read_tail(name: Seq<char>, path: Seq<char>, tail_word: Seq<char>, count: usize)
    requires
        spelled(name, "get-content"@),
        spelled(tail_word, "-tail"@),
        bare(name) && bare(path) && bare(tail_word),
        lowered(path).len() > 0 && lowered(path)[0] != '-',
    ensures
        bounded_read_of(call(seq![name, path, tail_word, decimal(count as nat)])) == Some(
            OperationView::ReadLines { path, window: ReadWindow::Tail, count },
        ),
        inspect_of(call(seq![name, path, tail_word, decimal(count as nat)])) is None,
{
    lemma_options();
    lemma_commands();
    lemma_spelled(name, "get-content"@);
    lemma_spelled(tail_word, "-tail"@);
    let n = decimal(count as nat);
    lemma_decimal_is_bare(count as nat);
    law_number_round_trip(count);
    lemma_not_path_option(path);
    lemma_not_colon("-tail"@);
    let o0 = no_content();
    let o1 = ContentView { positional: o0.positional.push(path), ..o0 };
    assert(o1.positional =~= seq![path]);
    let w2 = seq![name, path, tail_word, n];
    law_call(w2);
    let a2 = w2.skip(1);
    assert(a2.len() == 3 && a2[0] == path && a2[1] == tail_word && a2[2] == n);
    let o3 = ContentView { tail: Some(count), ..o1 };
    assert(content_scan(a2, 3, o3, true) == Some(o3));
    assert(content_scan(a2, 1, o1, true) == Some(o3));
    assert(content_scan(a2, 0, o0, true) == Some(o3));
    assert(content_scan(a2, 1, o1, false) is None);
    assert(content_scan(a2, 0, o0, false) is None);
}

#[verifier::rlimit(40)]
proof fn lemma_inspect(name: Seq<char>, path: Seq<char>, raw_word: Seq<char>)
    requires
        spelled(name, "get-content"@),
        spelled(raw_word, "-raw"@),
        bare(name) && bare(path) && bare(raw_word),
        lowered(path).len() > 0 && lowered(path)[0] != '-',
    ensures
        inspect_of(call(seq![name, path])) == Some(OperationView::InspectFile { path, raw: false }),
        inspect_of(call(seq![name, raw_word, path])) == Some(
            OperationView::InspectFile { path, raw: true },
        ),
{
    lemma_options();
    lemma_commands();
    lemma_spelled(name, "get-content"@);
    lemma_spelled(raw_word, "-raw"@);
    lemma_not_path_option(path);
    let o0 = no_content();
    let o1 = ContentView { positional: o0.positional.push(path), ..o0 };
    assert(o1.positional =~= seq![path]);
    let w3 = seq![name, path];
    law_call(w3);
    let a3 = w3.skip(1);
    assert(a3.len() == 1 && a3[0] == path);
    assert(content_scan(a3, 1, o1, false) == Some(o1));
    assert(content_scan(a3, 0, o0, false) == Some(o1));
    let w4 = seq![name, raw_word, path];
    law_call(w4);
    let a4 = w4.skip(1);
    assert(a4.len() == 2 && a4[0] == raw_word && a4[1] == path);
    let o5 = ContentView { raw: true, ..o0 };
    let o6 = ContentView { raw: true, ..o1 };
    assert(o5.positional.push(path) =~= o1.positional);
    assert(content_scan(a4, 2, o6, false) == Some(o6));
    assert(content_scan(a4, 1, o5, false) == Some(o6));
    assert(content_scan(a4, 0, o0, false) == Some(o6));
}

proof fn lemma_not_colon(t: Seq<char>)
    requires
        t.len() > 2,
        t[0] == '-',
        t[1] == 't',
    ensures
        !super::arguments::path_colon_option(t),
{
    reveal_strlit("-path:");
    reveal_strlit("-literalpath:");
    if crate::text::has_prefix(t, "-path:"@) {
        assert(t.subrange(0, 6)[1] == t[1]);
    }
    if crate::text::has_prefix(t, "-literalpath:"@) {
        assert(t.subrange(0, 13)[1] == t[1]);
    }
}

// Quoted words.

/// A word in quotes is read as what stands between them, white space and all.
pub proof fn law_quoted_word(word: Seq<char>, quote: char, rest: Seq<char>)
    requires
        quote == '"' || quote == '\'',
        !word.contains(quote),
    ensures
        words_of(seq![quote] + word + seq![quote] + rest) == seq![word] + words_of(rest),
{
    let s = seq![quote] + word + seq![quote] + rest;
    assert(s[0] == quote);
    assert(s.skip(1) =~= word + seq![quote] + rest);
    lemma_position_behind(word, quote, rest);
    let end = 1 + word.len() as int;
    assert(s.subrange(1, end) =~= word);
    assert(s.skip(end + 1) =~= rest);
    assert(super::words::quoted_start(s));
}

/// A word without quotes ends with white space.
pub proof fn law_plain_word(word: Seq<char>, rest: Seq<char>)
    requires
        plain_word(word),
    ensures
        words_of(word + seq![' '] + rest) == seq![word] + words_of(rest),
        words_of(word) == seq![word],
        words_of(seq![' '] + rest) == words_of(rest),
{
    let tail = seq![' '] + rest;
    let s = word + tail;
    assert(word + seq![' '] + rest =~= s);
    super::laws::lemma_run_of_word(word, tail);
    assert(s[0] == word[0]);
    assert(!whitespace(word[0]));
    assert(!super::words::quoted_start(s));
    assert(s.take(word.len() as int) =~= word);
    assert(s.skip(word.len() as int) =~= tail);
    assert(tail.skip(1) =~= rest);
    assert(tail[0] == ' ');
    assert(words_of(tail) == words_of(rest));
    assert(words_of(s) == seq![word] + words_of(tail));
    let e = Seq::<char>::empty();
    super::laws::lemma_run_of_word(word, e);
    assert(word + e =~= word);
    assert(word.take(word.len() as int) =~= word);
    assert(word.skip(word.len() as int) =~= e);
    assert(!super::words::quoted_start(word));
    assert(words_of(e) =~= Seq::<Seq<char>>::empty());
    assert(words_of(word) == seq![word] + words_of(e));
    assert(words_of(word) =~= seq![word]);
}

} // verus!
