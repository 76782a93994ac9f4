//! What holds of all JSON that is read and written: strings come back as they
//! were, values are told apart, and records are written out column by column.
use crate::backends::everything::{query_words, taken, FindQueryView, ItemView};
use crate::cli::{options_of, shown, ArgsView, Listing};
use crate::integrations::codex_hook::{
    failure_detail, first_word, input_in, text_member, tool_call, value_member,
};
use crate::json::{
    json_char, json_chars, json_fields, json_inside, json_items, json_members, json_parts,
    json_parts_from, json_string, json_valid, member_of, occurrences,
};
use crate::number::decimal;
use crate::record_laws::{lemma_text_order, text_before};
use crate::split::joined;
use crate::structured::{
    column_order, columns_check, is_column_order, json_line, json_pretty, json_value, named_columns,
    records_text, selection_of, ErrorView, FieldView, OptionsView, OutputFormat,
};
use crate::text::whitespace;
use crate::text_laws::{blank, law_trim, tight};
use vstd::prelude::*;
use vstd::string::*;

verus! {

// Strings.

/// The value of a hexadecimal digit.
pub open spec fn hex_value(c: char) -> int {
    if '0' <= c && c <= '9' {
        c as int - '0' as int
    } else if 'a' <= c && c <= 'f' {
        c as int - 'a' as int + 10
    } else {
        -1
    }
}

/// What a reader of JSON takes from the inside of a string: escapes stand for
/// what they mean, a quote and a control character cannot stand for
/// themselves.
pub open spec fn unescaped(s: Seq<char>) -> Option<Seq<char>>
    decreases s.len(),
{
    if s.len() == 0 {
        Some(Seq::empty())
    } else if s[0] != '\\' {
        if s[0] == '"' || (s[0] as int) < 32 {
            None
        } else {
            match unescaped(s.skip(1)) {
                Some(rest) => Some(seq![s[0]] + rest),
                None => None,
            }
        }
    } else if s.len() < 2 {
        None
    } else if s[1] == 'u' {
        if s.len() < 6 || s[2] != '0' || s[3] != '0' || hex_value(s[4]) < 0 || hex_value(s[5]) < 0 {
            None
        } else {
            match unescaped(s.skip(6)) {
                Some(rest) => Some(
                    seq![(hex_value(s[4]) * 16 + hex_value(s[5])) as char] + rest,
                ),
                None => None,
            }
        }
    } else {
        let c = if s[1] == 'b' {
            Some('\x08')
        } else if s[1] == 't' {
            Some('\t')
        } else if s[1] == 'n' {
            Some('\n')
        } else if s[1] == 'f' {
            Some('\x0c')
        } else if s[1] == 'r' {
            Some('\r')
        } else if s[1] == '"' || s[1] == '\\' {
            Some(s[1])
        } else {
            None
        };
        match (c, unescaped(s.skip(2))) {
            (Some(c), Some(rest)) => Some(seq![c] + rest),
            _ => None,
        }
    }
}

proof fn lemma_json_front(text: Seq<char>)
    requires
        text.len() > 0,
    ensures
        json_chars(text) == json_char(text[0]) + json_chars(text.skip(1)),
    decreases text.len(),
{
    if text.len() == 1 {
        assert(text.drop_last() =~= Seq::<char>::empty());
        assert(text.skip(1) =~= Seq::<char>::empty());
        reveal_with_fuel(json_chars, 2);
        assert(json_chars(text) =~= json_char(text[0]));
        assert(json_char(text[0]) + json_chars(text.skip(1)) =~= json_char(text[0]));
    } else {
        let less = text.drop_last();
        lemma_json_front(less);
        assert(less.skip(1) =~= text.skip(1).drop_last());
        assert(text.skip(1).last() == text.last());
        assert(json_chars(text) =~= json_char(text[0]) + json_chars(text.skip(1)));
    }
}

proof fn lemma_unescaped_char(c: char, rest: Seq<char>)
    ensures
        unescaped(rest) matches Some(more) ==> unescaped(json_char(c) + rest) == Some(
            seq![c] + more,
        ),
{
    let s = json_char(c) + rest;
    let n = c as int;
    if c == '"' || c == '\\' || n == 8 || n == 9 || n == 10 || n == 12 || n == 13 {
        assert(s[0] == '\\');
        assert(s.skip(2) =~= rest);
    } else if n < 32 {
        assert(s[0] == '\\' && s[1] == 'u' && s[2] == '0' && s[3] == '0');
        let high = n / 16;
        let low = n % 16;
        assert(0 <= high <= 1 && 0 <= low < 16);
        assert(s[4] == crate::json::hex_digit(high));
        assert(s[5] == crate::json::hex_digit(low));
        assert(hex_value(s[4]) == high);
        assert(hex_value(s[5]) == low);
        assert(high * 16 + low == n);
        assert(n as char == c);
        assert(s.skip(6) =~= rest);
    } else {
        assert(s[0] == c);
        assert(s.skip(1) =~= rest);
    }
}

/// A string that is written is read back as it was.
pub proof fn law_json_string(text: Seq<char>)
    ensures
        unescaped(json_chars(text)) == Some(text),
        json_string(text) == seq!['"'] + json_chars(text) + seq!['"'],
    decreases text.len(),
{
    if text.len() > 0 {
        law_json_string(text.skip(1));
        lemma_json_front(text);
        lemma_unescaped_char(text[0], json_chars(text.skip(1)));
        assert(seq![text[0]] + text.skip(1) =~= text);
    }
}

// Values.

/// Whether a text holds nothing that opens or closes anything, and not the
/// separator.
pub open spec fn level(s: Seq<char>, separator: char) -> bool {
    forall|i: int|
        0 <= i < s.len() ==> #[trigger] s[i] != '"' && s[i] != '[' && s[i] != ']' && s[i] != '{'
            && s[i] != '}' && s[i] != separator
}

proof fn lemma_level(
    s: Seq<char>,
    separator: char,
    depth: nat,
    part: Seq<char>,
    rest: Seq<char>,
)
    requires
        level(s, separator),
    ensures
        json_parts_from(s + rest, separator, depth, false, false, part) == json_parts_from(
            rest,
            separator,
            depth,
            false,
            false,
            part + s,
        ),
    decreases s.len(),
{
    let all = s + rest;
    if s.len() == 0 {
        assert(all =~= rest);
        assert(part + s =~= part);
    } else {
        assert(all[0] == s[0]);
        let less = s.skip(1);
        assert(all.skip(1) =~= less + rest);
        assert forall|i: int| 0 <= i < less.len() implies #[trigger] less[i] != '"' && less[i]
            != '[' && less[i] != ']' && less[i] != '{' && less[i] != '}' && less[i]
            != separator by {
            assert(less[i] == s[i + 1]);
        }
        lemma_level(less, separator, depth, part.push(s[0]), rest);
        assert(part.push(s[0]) + less =~= part + s);
    }
}

/// Values are told apart by the separator, but not by one inside brackets,
/// braces or a string.
#[verifier::rlimit(40)]
pub proof fn law_json_parts(a: Seq<char>, b: Seq<char>, separator: char, open: char, close: char)
    requires
        separator == ',' || separator == ':',
        level(a, separator) && level(b, separator),
        open == '[' && close == ']' || open == '{' && close == '}',
        forall|i: int| 0 <= i < a.len() ==> #[trigger] a[i] != '\\',
        forall|i: int| 0 <= i < b.len() ==> #[trigger] b[i] != '\\',
    ensures
        json_parts(a, separator) == seq![a],
        json_parts(a + seq![separator] + b, separator) == seq![a, b],
        json_parts(seq![open] + a + seq![separator] + b + seq![close], separator) == seq![
            seq![open] + a + seq![separator] + b + seq![close],
        ],
        json_parts(seq!['"'] + a + seq![separator] + b + seq!['"'], separator) == seq![
            seq!['"'] + a + seq![separator] + b + seq!['"'],
        ],
{
    let e = Seq::<char>::empty();
    assert(a + e =~= a && e + a =~= a && b + e =~= b && e + b =~= b);
    lemma_level(a, separator, 0, e, e);
    let tail = seq![separator] + b;
    assert(a + seq![separator] + b =~= a + tail);
    lemma_level(a, separator, 0, e, tail);
    assert(tail[0] == separator);
    assert(tail.skip(1) =~= b);
    lemma_level(b, separator, 0, e, e);
    assert(seq![a] + seq![b] =~= seq![a, b]);
    let s = seq![open] + a + seq![separator] + b + seq![close];
    let behind = seq![separator] + (b + seq![close]);
    assert(s[0] == open);
    assert(s.skip(1) =~= a + behind);
    assert(e.push(open) =~= seq![open]);
    lemma_level(a, separator, 1, seq![open], behind);
    assert(behind[0] == separator);
    assert(behind.skip(1) =~= b + seq![close]);
    let p = (seq![open] + a).push(separator);
    lemma_level(b, separator, 1, p, seq![close]);
    let last = seq![close];
    assert(last[0] == close);
    assert(last.skip(1) =~= e);
    assert((p + b).push(close) =~= s);
    assert(json_parts_from(e, separator, 0, false, false, s) == seq![s]);
    assert(json_parts_from(last, separator, 1, false, false, p + b) == seq![s]);
    assert(json_parts_from(s.skip(1), separator, 1, false, false, seq![open]) == seq![s]);
    let t = seq!['"'] + a + seq![separator] + b + seq!['"'];
    let inside = a + seq![separator] + b;
    assert(t[0] == '"');
    assert(t.skip(1) =~= inside + seq!['"']);
    assert forall|i: int| 0 <= i < inside.len() implies #[trigger] inside[i] != '"' && inside[i]
        != '\\' by {
        if i < a.len() {
            assert(inside[i] == a[i]);
        } else if i > a.len() {
            assert(inside[i] == b[i - a.len() - 1]);
        }
    }
    assert(e.push('"') =~= seq!['"']);
    lemma_in_string(inside, separator, seq!['"'], seq!['"']);
    let quote = seq!['"'];
    assert(quote[0] == '"');
    assert(quote.skip(1) =~= e);
    assert((seq!['"'] + inside).push('"') =~= t);
    assert(json_parts_from(e, separator, 0, false, false, t) == seq![t]);
    assert(json_parts_from(quote, separator, 0, true, false, seq!['"'] + inside) == seq![t]);
    assert(json_parts_from(t.skip(1), separator, 0, true, false, seq!['"']) == seq![t]);
}

proof fn lemma_in_string(s: Seq<char>, separator: char, part: Seq<char>, rest: Seq<char>)
    requires
        forall|i: int| 0 <= i < s.len() ==> #[trigger] s[i] != '"' && s[i] != '\\',
    ensures
        json_parts_from(s + rest, separator, 0, true, false, part) == json_parts_from(
            rest,
            separator,
            0,
            true,
            false,
            part + s,
        ),
    decreases s.len(),
{
    let all = s + rest;
    if s.len() == 0 {
        assert(all =~= rest);
        assert(part + s =~= part);
    } else {
        assert(all[0] == s[0]);
        let less = s.skip(1);
        assert(all.skip(1) =~= less + rest);
        assert forall|i: int| 0 <= i < less.len() implies #[trigger] less[i] != '"' && less[i]
            != '\\' by {
            assert(less[i] == s[i + 1]);
        }
        lemma_in_string(less, separator, part.push(s[0]), rest);
        assert(part.push(s[0]) + less =~= part + s);
    }
}

/// An object stands in braces and a list in brackets, with white space around
/// it or not.
pub proof fn law_json_inside(a: Seq<char>, inside: Seq<char>, b: Seq<char>, open: char, close: char)
    requires
        blank(a) && blank(b),
        open == '[' && close == ']' || open == '{' && close == '}',
    ensures
        json_inside(a + (seq![open] + inside + seq![close]) + b, open, close) == Some(inside),
        json_inside(
            a + (seq![open] + inside + seq![close]) + b,
            if open == '[' {
                '{'
            } else {
                '['
            },
            close,
        ) is None,
{
    let s = seq![open] + inside + seq![close];
    assert(s[0] == open && s.last() == close);
    assert(tight(s));
    law_trim(a, s, b);
    assert(s.subrange(1, s.len() - 1) =~= inside);
}

/// The member with a name is the first one of that name; there is none where
/// no member has it.
pub proof fn law_member(
    before: Seq<(Seq<char>, Seq<char>)>,
    name: Seq<char>,
    value: Seq<char>,
    after: Seq<(Seq<char>, Seq<char>)>,
)
    requires
        forall|i: int| 0 <= i < before.len() ==> (#[trigger] before[i]).0 != name,
    ensures
        member_of(before + seq![(name, value)] + after, name) == Some(value),
        member_of(before, name) is None,
    decreases before.len(),
{
    let all = before + seq![(name, value)] + after;
    if before.len() > 0 {
        assert(all[0] == before[0]);
        let rest = before.skip(1);
        assert forall|i: int| 0 <= i < rest.len() implies (#[trigger] rest[i]).0 != name by {
            assert(rest[i] == before[i + 1]);
        }
        law_member(rest, name, value, after);
        assert(all.skip(1) =~= rest + seq![(name, value)] + after);
        assert(before[0].0 != name);
    } else {
        assert(all[0] == (name, value));
    }
}

/// A text that is no JSON has no fields, and an object in which a known name
/// stands twice has none either.
pub proof fn law_fields_once(
    text: Seq<char>,
    names: Seq<Seq<char>>,
    members: Seq<(Seq<char>, Seq<char>)>,
    i: int,
    j: int,
    k: int,
)
    requires
        json_inside(text, '{', '}') is Some,
        json_members(json_items(json_inside(text, '{', '}')->0)) == Some(members),
        0 <= i < j < members.len(),
        0 <= k < names.len(),
        members[i].0 == names[k] && members[j].0 == names[k],
    ensures
        json_fields(text, names) is None,
{
    lemma_occurs_twice(members, names[k], i, j);
}

proof fn lemma_occurs(members: Seq<(Seq<char>, Seq<char>)>, name: Seq<char>, i: int)
    requires
        0 <= i < members.len(),
        members[i].0 == name,
    ensures
        occurrences(members, name) >= 1,
    decreases members.len(),
{
    if i < members.len() - 1 {
        lemma_occurs(members.drop_last(), name, i);
    }
}

proof fn lemma_occurs_twice(
    members: Seq<(Seq<char>, Seq<char>)>,
    name: Seq<char>,
    i: int,
    j: int,
)
    requires
        0 <= i < j < members.len(),
        members[i].0 == name && members[j].0 == name,
    ensures
        occurrences(members, name) >= 2,
    decreases members.len(),
{
    if j < members.len() - 1 {
        lemma_occurs_twice(members.drop_last(), name, i, j);
    } else {
        lemma_occurs(members.drop_last(), name, i);
    }
}

/// A valid object has the members that stand in it, where no known name stands
/// in it twice.
pub proof fn law_fields(
    text: Seq<char>,
    names: Seq<Seq<char>>,
    members: Seq<(Seq<char>, Seq<char>)>,
)
    requires
        json_inside(text, '{', '}') is Some,
        json_members(json_items(json_inside(text, '{', '}')->0)) == Some(members),
        forall|i: int, j: int|
            0 <= i < j < members.len() ==> (#[trigger] members[i]).0 != (#[trigger] members[j]).0,
    ensures
        json_valid(text) ==> json_fields(text, names) == Some(members),
        !json_valid(text) ==> json_fields(text, names) is None,
{
    assert forall|k: int| 0 <= k < names.len() implies occurrences(members, #[trigger] names[k])
        <= 1 by {
        lemma_occurs_once(members, names[k]);
    }
}

proof fn lemma_occurs_once(members: Seq<(Seq<char>, Seq<char>)>, name: Seq<char>)
    requires
        forall|i: int, j: int|
            0 <= i < j < members.len() ==> (#[trigger] members[i]).0 != (#[trigger] members[j]).0,
    ensures
        occurrences(members, name) <= 1,
    decreases members.len(),
{
    if members.len() > 0 {
        let before = members.drop_last();
        assert forall|i: int, j: int| 0 <= i < j < before.len() implies (#[trigger] before[i]).0
            != (#[trigger] before[j]).0 by {
            assert(before[i] == members[i] && before[j] == members[j]);
        }
        lemma_occurs_once(before, name);
        if members.last().0 == name {
            lemma_occurs_never(before, name, members);
        }
    }
}

proof fn lemma_occurs_never(
    before: Seq<(Seq<char>, Seq<char>)>,
    name: Seq<char>,
    members: Seq<(Seq<char>, Seq<char>)>,
)
    requires
        before.len() < members.len(),
        forall|i: int| 0 <= i < before.len() ==> before[i] == members[i],
        members.last().0 == name,
        forall|i: int, j: int|
            0 <= i < j < members.len() ==> (#[trigger] members[i]).0 != (#[trigger] members[j]).0,
    ensures
        occurrences(before, name) == 0,
    decreases before.len(),
{
    if before.len() > 0 {
        let less = before.drop_last();
        assert forall|i: int| 0 <= i < less.len() implies less[i] == members[i] by {
            assert(less[i] == before[i]);
        }
        lemma_occurs_never(less, name, members);
        let i = before.len() - 1;
        assert(before[i] == members[i]);
        assert(members[i].0 != members[members.len() - 1].0);
    }
}

// The input of a hook.

/// Each field of the input is the member of its name; one that is missing or
/// null is nothing.
pub proof fn law_input_fields(members: Seq<(Seq<char>, Seq<char>)>)
    ensures
        input_in(members) matches Some(input) ==> {
            &&& text_member(members, "hook_event_name"@) == Some(input.hook_event_name)
            &&& text_member(members, "session_id"@) == Some(input.session_id)
            &&& text_member(members, "turn_id"@) == Some(input.turn_id)
            &&& text_member(members, "model"@) == Some(input.model)
            &&& text_member(members, "prompt"@) == Some(input.prompt)
            &&& text_member(members, "cwd"@) == Some(input.cwd)
            &&& text_member(members, "tool_name"@) == Some(input.tool_name)
            &&& tool_call(value_member(members, "tool_input"@)) == Some(input.tool_input)
            &&& value_member(members, "tool_response"@) == input.tool_response
        },
        forall|name: Seq<char>|
            member_of(members, name) is None ==> #[trigger] text_member(members, name) == Some(
                None::<Seq<char>>,
            ),
        forall|name: Seq<char>|
            member_of(members, name) is None || member_of(members, name) == Some("null"@)
                <==> #[trigger] value_member(members, name) is None,
        forall|name: Seq<char>|
            #[trigger] value_member(members, name) matches Some(value) ==> member_of(members, name)
                == Some(value),
{
}

/// A note on a failed fast path says what was tried and what went wrong, and
/// holds the names of the commands that were to be replaced.
pub proof fn law_failure_note(
    command: Seq<char>,
    operation: crate::shell_parse::operation::OperationView,
    message: Seq<char>,
)
    ensures
        failure_detail(command, operation, message).reason == "fast_path_backend_failure:"@
            + crate::integrations::execution::kind_of(operation) + ": "@ + message,
        failure_detail(command, operation, message).normalized_shape == "fast_path_failure:"@
            + crate::integrations::execution::kind_of(operation),
        failure_detail(command, operation, message).pipeline_commands.len() > 0 ==> failure_detail(
            command,
            operation,
            message,
        ).first_command == Some(failure_detail(command, operation, message).pipeline_commands[0]),
{
}

/// The first word of a text stands behind white space and ends with white
/// space.
pub proof fn law_first_word(a: Seq<char>, word: Seq<char>, b: Seq<char>)
    requires
        blank(a),
        word.len() > 0,
        forall|i: int| 0 <= i < word.len() ==> !whitespace(#[trigger] word[i]),
        b.len() > 0 ==> whitespace(b[0]),
    ensures
        first_word(a + word + b) == Some(word),
        first_word(a) is None,
    decreases a.len(),
{
    let s = a + word + b;
    if a.len() > 0 {
        assert(s[0] == a[0]);
        assert(whitespace(a[0]));
        let rest = a.skip(1);
        assert forall|i: int| 0 <= i < rest.len() implies whitespace(#[trigger] rest[i]) by {
            assert(rest[i] == a[i + 1]);
        }
        law_first_word(rest, word, b);
        assert(s.skip(1) =~= rest + word + b);
    } else {
        assert(s =~= word + b);
        assert(s[0] == word[0]);
        lemma_word_len(word, b);
        assert(s.take(word.len() as int) =~= word);
    }
}

proof fn lemma_word_len(word: Seq<char>, b: Seq<char>)
    requires
        forall|i: int| 0 <= i < word.len() ==> !whitespace(#[trigger] word[i]),
        b.len() > 0 ==> whitespace(b[0]),
    ensures
        crate::integrations::codex_hook::word_len(word + b) == word.len(),
    decreases word.len(),
{
    let s = word + b;
    if word.len() == 0 {
        assert(s =~= b);
    } else {
        assert(s[0] == word[0]);
        let rest = word.skip(1);
        assert forall|i: int| 0 <= i < rest.len() implies !whitespace(#[trigger] rest[i]) by {
            assert(rest[i] == word[i + 1]);
        }
        lemma_word_len(rest, b);
        assert(s.skip(1) =~= rest + b);
    }
}

// Searches.

/// A search says that it wants files, what it looks for and where.
pub proof fn law_query_words(root: Seq<char>, pattern: Seq<char>, limit: usize)
    ensures
        query_words(
            FindQueryView { root: Some(root), pattern, files_only: true, limit },
        ) == seq!["file:"@, pattern, root],
        query_words(FindQueryView { root: None, pattern, files_only: true, limit }) == seq![
            "file:"@,
            pattern,
        ],
        query_words(
            FindQueryView { root: Some(root), pattern, files_only: false, limit },
        ) == seq![pattern, root],
        query_words(FindQueryView { root: None, pattern, files_only: false, limit }) == seq![
            pattern,
        ],
{
    assert(query_words(FindQueryView { root: Some(root), pattern, files_only: true, limit })
        =~= seq!["file:"@, pattern, root]);
    assert(query_words(FindQueryView { root: None, pattern, files_only: true, limit }) =~= seq![
        "file:"@,
        pattern,
    ]);
    assert(query_words(FindQueryView { root: Some(root), pattern, files_only: false, limit })
        =~= seq![pattern, root]);
    assert(query_words(FindQueryView { root: None, pattern, files_only: false, limit }) =~= seq![
        pattern,
    ]);
}

/// The items of a search that are wanted.
pub open spec fn wanted_paths(items: Seq<ItemView>, files_only: bool) -> Seq<Seq<char>>
    decreases items.len(),
{
    if items.len() == 0 {
        Seq::empty()
    } else if files_only && items[0].is_folder {
        wanted_paths(items.skip(1), files_only)
    } else {
        seq![items[0].path->Ok_0] + wanted_paths(items.skip(1), files_only)
    }
}

/// A search gives the first so many of the wanted paths, in order.
#[verifier::rlimit(40)]
pub proof fn law_first_results(
    items: Seq<ItemView>,
    files_only: bool,
    limit: nat,
    before: Seq<Seq<char>>,
)
    requires
        limit > 0 && before.len() < limit,
        forall|i: int| 0 <= i < items.len() ==> (#[trigger] items[i]).path is Ok,
    ensures
        ({
            let wanted = wanted_paths(items, files_only);
            let room = limit - before.len();
            taken(items, files_only, limit, before) == Ok::<Seq<Seq<char>>, Seq<char>>(
                before + if wanted.len() <= room {
                    wanted
                } else {
                    wanted.take(room)
                },
            )
        }),
    decreases items.len(),
{
    let wanted = wanted_paths(items, files_only);
    if items.len() == 0 {
        assert(before + wanted =~= before);
    } else {
        let rest = items.skip(1);
        assert forall|i: int| 0 <= i < rest.len() implies (#[trigger] rest[i]).path is Ok by {
            assert(rest[i] == items[i + 1]);
        }
        assert(items[0].path is Ok);
        if files_only && items[0].is_folder {
            law_first_results(rest, files_only, limit, before);
        } else {
            let path = items[0].path->Ok_0;
            let more = wanted_paths(rest, files_only);
            if before.len() + 1 >= limit {
                if wanted.len() > 1 {
                    assert(wanted.take(1) =~= seq![path]);
                    assert(before + wanted.take(1) =~= before.push(path));
                } else {
                    assert(more =~= Seq::<Seq<char>>::empty());
                    assert(before + wanted =~= before.push(path));
                }
            } else {
                law_first_results(rest, files_only, limit, before.push(path));
                let room = limit - before.len();
                if wanted.len() <= room {
                    assert(before + wanted =~= before.push(path) + more);
                } else {
                    assert(before + wanted.take(room) =~= before.push(path) + more.take(room - 1));
                }
            }
        }
    }
}

// Records.

#[verifier::rlimit(40)]
proof fn lemma_two_columns(
    record: Map<Seq<char>, FieldView>,
    a: Seq<char>,
    b: Seq<char>,
)
    requires
        record.dom() == set![a, b],
        text_before(a, b),
    ensures
        column_order(record) == seq![a, b],
{
    let order = column_order(record);
    crate::structured::law_column_order(record);
    assert(is_column_order(record, order));
    lemma_text_order(a, b);
    lemma_text_order(b, a);
    lemma_text_order(a, a);
    lemma_text_order(b, b);
    lemma_order(a, b);
    assert(order.to_set().contains(a));
    assert(order.to_set().contains(b));
    assert forall|i: int| 0 <= i < order.len() implies #[trigger] order[i] == a || order[i]
        == b by {
        assert(order.contains(order[i]));
        assert(order.to_set().contains(order[i]));
    }
    assert(order.contains(a) && order.contains(b));
    let i = order.index_of(a);
    let j = order.index_of(b);
    assert(order[i] == a && order[j] == b);
    assert(i < j);
    assert forall|k: int| 0 <= k < order.len() implies (#[trigger] order[k] == a && k == i) || (
    order[k] == b && k == j) by {
        if order[k] == a {
            assert(k == i);
        } else {
            assert(k == j);
        }
    }
    assert(order[0] == a || order[0] == b);
    assert(order[1] == a || order[1] == b);
    if order.len() > 2 {
        assert(order[2] == a || order[2] == b);
    }
    assert(order =~= seq![a, b]);
}

#[verifier::rlimit(40)]
proof fn lemma_order(a: Seq<char>, b: Seq<char>)
    requires
        text_before(a, b),
    ensures
        !text_before(b, a),
        !text_before(a, a),
        !text_before(b, b),
        a != b,
{
    let k = choose|k: int|
        0 <= k < b.len() && k <= a.len() && #[trigger] a.take(k) == b.take(k) && (k < a.len()
            ==> a[k] < b[k]);
    if text_before(b, a) {
        let m = choose|m: int|
            0 <= m < a.len() && m <= b.len() && #[trigger] b.take(m) == a.take(m) && (m < b.len()
                ==> b[m] < a[m]);
        if m < k {
            assert(a.take(k)[m] == b.take(k)[m]);
        } else if k < m {
            assert(a.take(m)[k] == b.take(m)[k]);
        }
    }
    if text_before(a, a) {
        let m = choose|m: int|
            0 <= m < a.len() && m <= a.len() && #[trigger] a.take(m) == a.take(m) && (m < a.len()
                ==> a[m] < a[m]);
        assert(false);
    }
    if text_before(b, b) {
        let m = choose|m: int|
            0 <= m < b.len() && m <= b.len() && #[trigger] b.take(m) == b.take(m) && (m < b.len()
                ==> b[m] < b[m]);
        assert(false);
    }
}

/// A record is written with its columns in order, each with its value; texts
/// stand in quotes, numbers do not, and nothing is null.
pub proof fn law_record_line(
    a: Seq<char>,
    x: FieldView,
    b: Seq<char>,
    y: FieldView,
    text: Seq<char>,
    number: u64,
)
    requires
        text_before(a, b),
    ensures
        json_line(Map::<Seq<char>, FieldView>::empty().insert(a, x).insert(b, y)) == seq!['{']
            + json_string(a) + seq![':'] + json_value(x) + seq![','] + json_string(b) + seq![':']
            + json_value(y) + seq!['}'],
        json_line(Map::<Seq<char>, FieldView>::empty().insert(b, y).insert(a, x)) == json_line(
            Map::<Seq<char>, FieldView>::empty().insert(a, x).insert(b, y),
        ),
        json_value(FieldView::Text(text)) == json_string(text),
        json_value(FieldView::Number(number)) == decimal(number as nat),
        json_value(FieldView::Null) == "null"@,
{
    reveal_strlit("{");
    reveal_strlit("}");
    reveal_strlit(",");
    reveal_strlit(":");
    assert("{"@ =~= seq!['{'] && "}"@ =~= seq!['}'] && ","@ =~= seq![','] && ":"@ =~= seq![':']);
    lemma_order(a, b);
    let record = Map::<Seq<char>, FieldView>::empty().insert(a, x).insert(b, y);
    assert(Map::<Seq<char>, FieldView>::empty().insert(b, y).insert(a, x) =~= record);
    assert(record.dom() =~= set![a, b]);
    lemma_two_columns(record, a, b);
    let f = |column: Seq<char>| json_string(column) + ":"@ + json_value(record[column]);
    let first = json_string(a) + ":"@ + json_value(x);
    let second = json_string(b) + ":"@ + json_value(y);
    assert(seq![a, b].map_values(f) =~= seq![first, second]);
    reveal_with_fuel(joined, 3);
    assert(seq![first, second].drop_last() =~= seq![first]);
    assert(json_line(record) =~= seq!['{'] + json_string(a) + seq![':'] + json_value(x) + seq![',']
        + json_string(b) + seq![':'] + json_value(y) + seq!['}']);
}

/// Records that are written as one list stand in brackets; none is an empty
/// list.
pub proof fn law_record_list(record: Map<Seq<char>, FieldView>, column: Option<Seq<char>>)
    ensures
        records_text(Seq::empty(), OutputFormat::Json, column) == "[]"@,
        json_pretty(seq![record]) == "[\n"@ + crate::structured::json_block(record) + "\n]"@,
        json_pretty(seq![record, record]) == "[\n"@ + crate::structured::json_block(record)
            + ",\n"@ + crate::structured::json_block(record) + "\n]"@,
{
    let f = |record: Map<Seq<char>, FieldView>| crate::structured::json_block(record);
    let block = crate::structured::json_block(record);
    assert(seq![record].map_values(f) =~= seq![block]);
    assert(seq![record, record].map_values(f) =~= seq![block, block]);
    reveal_with_fuel(joined, 3);
    assert(seq![block, block].drop_last() =~= seq![block]);
    assert(json_pretty(seq![record, record]) =~= "[\n"@ + block + ",\n"@ + block + "\n]"@);
}

/// A record in a list has one column on a line, with spaces before it.
pub proof fn law_record_block(a: Seq<char>, x: FieldView, b: Seq<char>, y: FieldView)
    requires
        text_before(a, b),
    ensures
        crate::structured::json_block(
            Map::<Seq<char>, FieldView>::empty().insert(a, x).insert(b, y),
        ) == "  {\n"@ + "    "@ + json_string(a) + ": "@ + json_value(x) + ",\n"@ + "    "@
            + json_string(b) + ": "@ + json_value(y) + "\n  }"@,
{
    lemma_order(a, b);
    let record = Map::<Seq<char>, FieldView>::empty().insert(a, x).insert(b, y);
    assert(record.dom() =~= set![a, b]);
    lemma_two_columns(record, a, b);
    let f = |column: Seq<char>| "    "@ + json_string(column) + ": "@ + json_value(record[column]);
    let first = "    "@ + json_string(a) + ": "@ + json_value(x);
    let second = "    "@ + json_string(b) + ": "@ + json_value(y);
    assert(seq![a, b].map_values(f) =~= seq![first, second]);
    reveal_with_fuel(joined, 3);
    assert(seq![first, second].drop_last() =~= seq![first]);
    assert(crate::structured::json_block(record) =~= "  {\n"@ + "    "@ + json_string(a) + ": "@
        + json_value(x) + ",\n"@ + "    "@ + json_string(b) + ": "@ + json_value(y) + "\n  }"@);
}

// What the commands show.

/// The columns of the listings and the one that stands for a record.
pub proof fn law_listing_columns()
    ensures
        Listing::Find.columns() == seq!["path"@, "name"@, "extension"@, "parent"@],
        Listing::Grep.columns() == Listing::Find.columns() + seq!["line_number"@, "line"@],
        Listing::Slice.columns() == seq!["line_number"@, "text"@],
        Listing::Find.main_column() == Some("path"@),
        Listing::Grep.main_column() is None,
        Listing::Slice.main_column() == Some("text"@),
{
    assert(Listing::Find.columns() + seq!["line_number"@, "line"@] =~= Listing::Grep.columns());
}

/// A column that a listing does not have is refused with the list of those
/// that it has, wherever it is named.
pub proof fn law_unknown_columns(allowed: Seq<Seq<char>>, known: Seq<Seq<char>>, column: Seq<char>)
    requires
        forall|i: int| 0 <= i < known.len() ==> allowed.contains(#[trigger] known[i]),
    ensures
        columns_check(known, allowed) is Ok,
        !allowed.contains(column) ==> columns_check(known.push(column), allowed) == Err::<
            (),
            ErrorView,
        >(ErrorView::UnsupportedColumn { column, available: joined(allowed, seq![',']) }),
    decreases known.len(),
{
    reveal_strlit(",");
    assert(","@ =~= seq![',']);
    assert(known.push(column).drop_last() =~= known);
    if known.len() > 0 {
        let before = known.drop_last();
        assert forall|i: int| 0 <= i < before.len() implies allowed.contains(
            #[trigger] before[i],
        ) by {
            assert(before[i] == known[i]);
        }
        law_unknown_columns(allowed, before, column);
        assert(allowed.contains(known[known.len() - 1]));
    }
}

/// The columns of a selection, of a condition and of an order are all looked
/// at.
#[verifier::rlimit(40)]
pub proof fn law_named_columns(options: OptionsView, column: Seq<char>)
    ensures
        named_columns(options).contains(column) <==> (options.select matches Some(columns)
            && columns.contains(column)) || (options.where_clause matches Some(clause)
            && crate::structured::clause_column(clause) == column) || options.sort_by == Some(
            column,
        ),
{
    let a = match options.select {
        Some(columns) => columns,
        None => Seq::empty(),
    };
    let b = match options.where_clause {
        Some(clause) => seq![crate::structured::clause_column(clause)],
        None => Seq::empty(),
    };
    let c = match options.sort_by {
        Some(column) => seq![column],
        None => Seq::empty(),
    };
    let all = named_columns(options);
    assert(all =~= a + b + c);
    if all.contains(column) {
        let i = all.index_of(column);
        assert(all[i] == column);
        if i < a.len() {
            assert(a[i] == column);
            assert(a.contains(column));
        } else if i < a.len() + b.len() {
            assert(b[i - a.len()] == column);
        } else {
            assert(c[i - a.len() - b.len()] == column);
        }
    }
    if let Some(columns) = options.select {
        if columns.contains(column) {
            let i = columns.index_of(column);
            assert(all[i] == column);
        }
    }
    if let Some(clause) = options.where_clause {
        if crate::structured::clause_column(clause) == column {
            assert(all[a.len() as int] == column);
        }
    }
    if options.sort_by == Some(column) {
        assert(all[(a.len() + b.len()) as int] == column);
    }
}

/// Without any arguments all records are shown, up to the limit.
pub proof fn law_plain_listing(
    records: Seq<Map<Seq<char>, FieldView>>,
    listing: Listing,
    format: OutputFormat,
    limit: Option<usize>,
)
    ensures
        shown(
            records,
            listing,
            ArgsView { output: format, select: None, where_clause: None, sort_by: None },
            limit,
        ) == Ok::<Seq<char>, ErrorView>(
            records_text(
                crate::structured::applied(
                    records,
                    OptionsView { select: None, where_clause: None, sort_by: None, limit },
                ),
                format,
                listing.main_column(),
            ),
        ),
{
    let args = ArgsView { output: format, select: None, where_clause: None, sort_by: None };
    let options = OptionsView { select: None, where_clause: None, sort_by: None, limit };
    assert(options_of(args, limit) == Ok::<OptionsView, ErrorView>(options));
    assert(named_columns(options) =~= Seq::<Seq<char>>::empty());
}

/// The options are those of the arguments; what cannot be read is refused, the
/// selection first, the condition next and the order last.
pub proof fn law_options(args: ArgsView, limit: Option<usize>)
    ensures
        args.select matches Some(text) ==> (selection_of(text) matches Err(error) ==> options_of(
            args,
            limit,
        ) == Err::<OptionsView, ErrorView>(error)),
        args.select is None ==> (args.where_clause matches Some(text) ==> (
        crate::structured::clause_of(text) matches Err(error) ==> options_of(args, limit) == Err::<
            OptionsView,
            ErrorView,
        >(error))),
        args.select is None && args.where_clause is None ==> (args.sort_by matches Some(text) ==> (
        crate::structured::column_of(text) matches Err(error) ==> options_of(args, limit) == Err::<
            OptionsView,
            ErrorView,
        >(error))),
        options_of(args, limit) matches Ok(options) ==> {
            &&& options.limit == limit
            &&& args.select is None <==> options.select is None
            &&& args.select matches Some(text) ==> selection_of(text) == Ok::<
                Seq<Seq<char>>,
                ErrorView,
            >(options.select->0)
            &&& args.where_clause is None <==> options.where_clause is None
            &&& args.where_clause matches Some(text) ==> crate::structured::clause_of(text) == Ok::<
                crate::structured::ClauseView,
                ErrorView,
            >(options.where_clause->0)
            &&& args.sort_by is None <==> options.sort_by is None
            &&& args.sort_by matches Some(text) ==> crate::structured::column_of(text) == Ok::<
                Seq<char>,
                ErrorView,
            >(options.sort_by->0)
        },
{
}

} // verus!
