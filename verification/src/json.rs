//! JSON texts. `serde_json` tells what is JSON and reads and writes the values;
//! what the members of a structure are is told here.
#![verifier::loop_isolation(false)]

use crate::split::joined;
use crate::text::{owned, push_item, same, text_range, to_chars, trim, trimmed};
use vstd::prelude::*;
use vstd::string::*;

verus! {

/// Whether `serde_json` takes a text for JSON, whatever its values are.
pub uninterp spec fn json_valid(text: Seq<char>) -> bool;

/// The compact JSON notation that `serde_json` gives a JSON text back in;
/// `None` where it holds a value out of range or is not JSON.
pub uninterp spec fn compact_json(text: Seq<char>) -> Option<Seq<char>>;

/// The text that `serde_json` reads in a JSON string, `None` inside for
/// `null`. `None` where the text is neither.
pub uninterp spec fn json_text(text: Seq<char>) -> Option<Option<Seq<char>>>;

/// A hexadecimal digit.
pub open spec fn hex_digit(n: int) -> char {
    if n < 10 {
        (n + 48) as char
    } else {
        (n + 87) as char
    }
}

/// What stands for a character in a JSON string.
pub open spec fn json_char(c: char) -> Seq<char> {
    let n = c as int;
    if c == '"' || c == '\\' {
        seq!['\\', c]
    } else if n == 8 {
        seq!['\\', 'b']
    } else if n == 9 {
        seq!['\\', 't']
    } else if n == 10 {
        seq!['\\', 'n']
    } else if n == 12 {
        seq!['\\', 'f']
    } else if n == 13 {
        seq!['\\', 'r']
    } else if n < 32 {
        seq!['\\', 'u', '0', '0', hex_digit(n / 16), hex_digit(n % 16)]
    } else {
        seq![c]
    }
}

/// What stands between the quotes of a JSON string.
pub open spec fn json_chars(text: Seq<char>) -> Seq<char>
    decreases text.len(),
{
    if text.len() == 0 {
        Seq::empty()
    } else {
        json_chars(text.drop_last()) + json_char(text.last())
    }
}

/// A text as a JSON string.
pub open spec fn json_string(text: Seq<char>) -> Seq<char> {
    seq!['"'] + json_chars(text) + seq!['"']
}

/// Calls `serde_json::from_str` for a `serde::de::IgnoredAny`. Claimed: the
/// result depends on the text alone. What the error says is not claimed.
#[verifier::external_body]
pub(crate) fn check_json(text: &str) -> (r: Result<(), String>)
    ensures
        r is Ok <==> json_valid(text@),
{
    match serde_json::from_str::<serde::de::IgnoredAny>(text) {
        Ok(_) => Ok(()),
        Err(error) => Err(error.to_string()),
    }
}

/// Calls `serde_json::from_str` for a `serde_json::Value`, and `to_string` on
/// the value. Claimed: the result depends on the text alone.
#[verifier::external_body]
pub(crate) fn compact(text: &str) -> (r: Option<String>)
    ensures
        r.deep_view() == compact_json(text@),
{
    serde_json::from_str::<serde_json::Value>(text).ok().map(|value| value.to_string())
}

/// Calls `serde_json::from_str` for an `Option<String>`. Claimed: the result
/// depends on the text alone. What the error says is not claimed.
#[verifier::external_body]
pub(crate) fn read_text(text: &str) -> (r: Result<Option<String>, String>)
    ensures
        match r {
            Ok(value) => json_text(text@) == Some(value.deep_view()),
            Err(_) => json_text(text@) is None,
        },
{
    serde_json::from_str::<Option<String>>(text).map_err(|error| error.to_string())
}

/// Calls `serde_json::to_string` on a text, which does not fail on one.
/// Claimed: the result is the text in quotes, with escapes for quotes,
/// backslashes and control characters.
#[verifier::external_body]
pub(crate) fn write_text(text: &str) -> (r: String)
    ensures
        r@ == json_string(text@),
{
    serde_json::to_string(text).unwrap_or_default()
}

// Parts of a JSON text.

/// The parts of a JSON text between the separators that stand outside strings
/// and brackets. `part` is what is read of the current part.
pub open spec fn json_parts_from(
    s: Seq<char>,
    separator: char,
    depth: nat,
    in_string: bool,
    escaped: bool,
    part: Seq<char>,
) -> Seq<Seq<char>>
    decreases s.len(),
{
    if s.len() == 0 {
        seq![part]
    } else {
        let c = s[0];
        let rest = s.skip(1);
        let longer = part.push(c);
        if in_string {
            json_parts_from(
                rest,
                separator,
                depth,
                escaped || c != '"',
                !escaped && c == '\\',
                longer,
            )
        } else if c == '"' {
            json_parts_from(rest, separator, depth, true, false, longer)
        } else if c == '[' || c == '{' {
            json_parts_from(rest, separator, depth + 1, false, false, longer)
        } else if c == ']' || c == '}' {
            json_parts_from(
                rest,
                separator,
                if depth == 0 {
                    0
                } else {
                    (depth - 1) as nat
                },
                false,
                false,
                longer,
            )
        } else if c == separator && depth == 0 {
            seq![part] + json_parts_from(rest, separator, 0, false, false, Seq::empty())
        } else {
            json_parts_from(rest, separator, depth, false, false, longer)
        }
    }
}

/// The parts of a JSON text between the separators that stand outside strings
/// and brackets.
pub open spec fn json_parts(s: Seq<char>, separator: char) -> Seq<Seq<char>> {
    json_parts_from(s, separator, 0, false, false, Seq::empty())
}

/// The parts of a JSON text between the separators that stand outside strings
/// and brackets.
pub fn split_json(text: &str, separator: char) -> (r: Vec<String>)
    requires
        separator != '"' && separator != '[' && separator != ']' && separator != '{' && separator
            != '}',
    ensures
        r.deep_view() == json_parts(text@, separator),
{
    let chars = to_chars(text);
    let ghost all = json_parts(chars@, separator);
    let mut parts: Vec<String> = Vec::new();
    let mut part = String::new();
    let mut depth: usize = 0;
    let mut in_string = false;
    let mut escaped = false;
    let mut i: usize = 0;
    assert(chars@.skip(0) =~= chars@);
    assert(part@ =~= Seq::<char>::empty());
    assert(parts.deep_view() + all =~= all);
    while i < chars.len()
        invariant
            i <= chars.len(),
            depth <= i,
            parts.deep_view() + json_parts_from(
                chars@.skip(i as int),
                separator,
                depth as nat,
                in_string,
                escaped,
                part@,
            ) == all,
        decreases chars.len() - i,
    {
        let c = chars[i];
        let ghost rest = chars@.skip(i as int);
        let ghost before = parts.deep_view();
        let ghost read = part@;
        assert(rest[0] == c);
        assert(rest.skip(1) =~= chars@.skip(i + 1));
        if in_string {
            let ends = !escaped && c == '"';
            escaped = !escaped && c == '\\';
            in_string = !ends;
            part.push(c);
        } else if c == separator && depth == 0 {
            push_item(&mut parts, part);
            part = String::new();
            assert(part@ =~= Seq::<char>::empty());
            escaped = false;
            assert(before + json_parts_from(rest, separator, 0, false, false, read)
                =~= parts.deep_view() + json_parts_from(
                rest.skip(1),
                separator,
                0,
                false,
                false,
                Seq::empty(),
            ));
        } else {
            escaped = false;
            if c == '"' {
                in_string = true;
            } else if c == '[' || c == '{' {
                depth += 1;
            } else if (c == ']' || c == '}') && depth > 0 {
                depth -= 1;
            }
            part.push(c);
        }
        i += 1;
    }
    assert(chars@.skip(i as int) =~= Seq::<char>::empty());
    let ghost before = parts.deep_view();
    let ghost read = part@;
    push_item(&mut parts, part);
    assert(parts.deep_view() =~= before + seq![read]);
    parts
}

proof fn lemma_joined_front(first: Seq<char>, rest: Seq<Seq<char>>, separator: Seq<char>)
    requires
        rest.len() > 0,
    ensures
        joined(seq![first] + rest, separator) == first + separator + joined(rest, separator),
    decreases rest.len(),
{
    let all = seq![first] + rest;
    let before = all.drop_last();
    assert(all.last() == rest.last());
    if rest.len() == 1 {
        assert(before =~= seq![first]);
        assert(before.drop_last() =~= Seq::<Seq<char>>::empty());
        assert(rest.drop_last() =~= Seq::<Seq<char>>::empty());
        assert(joined(before, separator) =~= first);
        assert(joined(rest, separator) =~= rest[0]);
    } else {
        assert(before =~= seq![first] + rest.drop_last());
        lemma_joined_front(first, rest.drop_last(), separator);
        assert(joined(all, separator) =~= first + separator + joined(rest, separator));
    }
}

proof fn lemma_parts_joined(
    s: Seq<char>,
    separator: char,
    depth: nat,
    in_string: bool,
    escaped: bool,
    part: Seq<char>,
)
    ensures
        json_parts_from(s, separator, depth, in_string, escaped, part).len() > 0,
        joined(
            json_parts_from(s, separator, depth, in_string, escaped, part),
            seq![separator],
        ) == part + s,
    decreases s.len(),
{
    if s.len() == 0 {
        assert(seq![part].drop_last() =~= Seq::<Seq<char>>::empty());
        assert(part + s =~= part);
    } else {
        let c = s[0];
        let rest = s.skip(1);
        let longer = part.push(c);
        assert(longer + rest =~= part + s);
        if in_string {
            lemma_parts_joined(
                rest,
                separator,
                depth,
                escaped || c != '"',
                !escaped && c == '\\',
                longer,
            );
        } else if c == '"' {
            lemma_parts_joined(rest, separator, depth, true, false, longer);
        } else if c == '[' || c == '{' {
            lemma_parts_joined(rest, separator, depth + 1, false, false, longer);
        } else if c == ']' || c == '}' {
            lemma_parts_joined(
                rest,
                separator,
                if depth == 0 {
                    0
                } else {
                    (depth - 1) as nat
                },
                false,
                false,
                longer,
            );
        } else if c == separator && depth == 0 {
            let behind = json_parts_from(rest, separator, 0, false, false, Seq::empty());
            lemma_parts_joined(rest, separator, 0, false, false, Seq::empty());
            lemma_joined_front(part, behind, seq![separator]);
            assert(part + seq![separator] + (Seq::<char>::empty() + rest) =~= part + s);
        } else {
            lemma_parts_joined(rest, separator, depth, false, false, longer);
        }
    }
}

/// Splitting a JSON text loses nothing: the parts with the separators between
/// them are the text.
pub proof fn law_parts_give_the_text_back(text: Seq<char>, separator: char)
    ensures
        json_parts(text, separator).len() > 0,
        joined(json_parts(text, separator), seq![separator]) == text,
{
    lemma_parts_joined(text, separator, 0, false, false, Seq::empty());
    assert(Seq::<char>::empty() + text =~= text);
}

/// What stands between the outer brackets of a text.
pub open spec fn json_inside(text: Seq<char>, open: char, close: char) -> Option<Seq<char>> {
    let t = trimmed(text);
    if t.len() >= 2 && t[0] == open && t.last() == close {
        Some(t.subrange(1, t.len() - 1))
    } else {
        None
    }
}

fn read_inside(text: &str, open: char, close: char) -> (r: Option<String>)
    ensures
        r.deep_view() == json_inside(text@, open, close),
{
    let t = trim(text);
    let chars = to_chars(t.as_str());
    let n = chars.len();
    if n >= 2 && chars[0] == open && chars[n - 1] == close {
        let inside = text_range(&chars, 1, n - 1);
        assert(inside@ =~= chars@.subrange(1, n - 1));
        Some(inside)
    } else {
        None
    }
}

/// The values or members between the outer brackets of a text.
pub open spec fn json_items(inside: Seq<char>) -> Seq<Seq<char>> {
    if trimmed(inside).len() == 0 {
        Seq::empty()
    } else {
        json_parts(inside, ',')
    }
}

fn read_items(inside: &str) -> (r: Vec<String>)
    ensures
        r.deep_view() == json_items(inside@),
{
    if trim(inside).as_str().unicode_len() == 0 {
        let none: Vec<String> = Vec::new();
        assert(none.deep_view() =~= Seq::<Seq<char>>::empty());
        none
    } else {
        split_json(inside, ',')
    }
}

/// A member of an object: its name and the JSON text of its value.
pub open spec fn json_member(item: Seq<char>) -> Option<(Seq<char>, Seq<char>)> {
    let sides = json_parts(item, ':');
    if sides.len() == 2 {
        match json_text(sides[0]) {
            Some(Some(name)) => Some((name, trimmed(sides[1]))),
            _ => None,
        }
    } else {
        None
    }
}

fn read_member(item: &str) -> (r: Result<(String, String), String>)
    ensures
        match r {
            Ok(member) => json_member(item@) == Some(member.deep_view()),
            Err(_) => json_member(item@) is None,
        },
{
    let sides = split_json(item, ':');
    if sides.len() != 2 {
        return Err(owned("expected a member"));
    }
    assert(sides.deep_view()[0] == sides[0]@ && sides.deep_view()[1] == sides[1]@);
    match read_text(sides[0].as_str()) {
        Ok(Some(name)) => {
            let member = (name, trim(sides[1].as_str()));
            assert(member.deep_view() == (member.0@, member.1@));
            Ok(member)
        },
        Ok(None) => Err(owned("expected a name")),
        Err(message) => Err(message),
    }
}

/// The members of an object, in order and with repeats.
pub open spec fn json_members(items: Seq<Seq<char>>) -> Option<Seq<(Seq<char>, Seq<char>)>>
    decreases items.len(),
{
    if items.len() == 0 {
        Some(Seq::empty())
    } else {
        match (json_members(items.drop_last()), json_member(items.last())) {
            (Some(before), Some(member)) => Some(before.push(member)),
            _ => None,
        }
    }
}

proof fn lemma_members_prefix(items: Seq<Seq<char>>, n: int)
    requires
        0 <= n <= items.len(),
        json_members(items.take(n)) is None,
    ensures
        json_members(items) is None,
    decreases items.len() - n,
{
    if n < items.len() {
        assert(items.take(n + 1).drop_last() =~= items.take(n));
        lemma_members_prefix(items, n + 1);
    } else {
        assert(items.take(n) =~= items);
    }
}

fn read_members(items: &Vec<String>) -> (r: Result<Vec<(String, String)>, String>)
    ensures
        match r {
            Ok(members) => json_members(items.deep_view()) == Some(members.deep_view()),
            Err(_) => json_members(items.deep_view()) is None,
        },
{
    let ghost view = items.deep_view();
    let mut members: Vec<(String, String)> = Vec::new();
    let mut i: usize = 0;
    assert(members.deep_view() =~= Seq::<(Seq<char>, Seq<char>)>::empty());
    while i < items.len()
        invariant
            i <= items.len(),
            json_members(view.take(i as int)) == Some(members.deep_view()),
        decreases items.len() - i,
    {
        proof {
            assert(view.take(i + 1).drop_last() =~= view.take(i as int));
            assert(view.take(i + 1).last() == items[i as int]@);
        }
        match read_member(items[i].as_str()) {
            Ok(member) => {
                push_item(&mut members, member);
            },
            Err(message) => {
                proof {
                    lemma_members_prefix(view, i + 1);
                }
                return Err(message);
            },
        }
        i += 1;
    }
    assert(view.take(i as int) =~= view);
    Ok(members)
}

/// How often a name stands among members.
pub open spec fn occurrences(members: Seq<(Seq<char>, Seq<char>)>, name: Seq<char>) -> nat
    decreases members.len(),
{
    if members.len() == 0 {
        0
    } else {
        occurrences(members.drop_last(), name) + if members.last().0 == name {
            1nat
        } else {
            0nat
        }
    }
}

fn count_member(members: &Vec<(String, String)>, name: &str) -> (r: usize)
    ensures
        r == occurrences(members.deep_view(), name@),
{
    let ghost view = members.deep_view();
    let mut count: usize = 0;
    let mut i: usize = 0;
    assert(view.take(0) =~= Seq::<(Seq<char>, Seq<char>)>::empty());
    while i < members.len()
        invariant
            i <= members.len(),
            count <= i,
            count == occurrences(view.take(i as int), name@),
        decreases members.len() - i,
    {
        proof {
            assert(view.take(i + 1).drop_last() =~= view.take(i as int));
            assert(view.take(i + 1).last() == members[i as int].deep_view());
        }
        if same(members[i].0.as_str(), name) {
            count += 1;
        }
        i += 1;
    }
    assert(view.take(i as int) =~= view);
    count
}

/// Whether none of the names stands among members more than once.
pub open spec fn once_each(members: Seq<(Seq<char>, Seq<char>)>, names: Seq<Seq<char>>) -> bool {
    forall|i: int| 0 <= i < names.len() ==> occurrences(members, #[trigger] names[i]) <= 1
}

fn are_once_each(members: &Vec<(String, String)>, names: &Vec<String>) -> (r: bool)
    ensures
        r == once_each(members.deep_view(), names.deep_view()),
{
    let ghost view = names.deep_view();
    let mut i: usize = 0;
    while i < names.len()
        invariant
            i <= names.len(),
            forall|j: int|
                0 <= j < i ==> occurrences(members.deep_view(), #[trigger] view[j]) <= 1,
        decreases names.len() - i,
    {
        assert(view[i as int] == names[i as int]@);
        if count_member(members, names[i].as_str()) > 1 {
            assert(occurrences(members.deep_view(), view[i as int]) > 1);
            return false;
        }
        i += 1;
    }
    true
}

/// Names with the values at the same places.
pub open spec fn paired(names: Seq<Seq<char>>, values: Seq<Seq<char>>) -> Seq<
    (Seq<char>, Seq<char>),
> {
    Seq::new(names.len(), |i: int| (names[i], trimmed(values[i])))
}

fn pair(names: &Vec<String>, values: &Vec<String>) -> (r: Vec<(String, String)>)
    requires
        names.len() == values.len(),
    ensures
        r.deep_view() == paired(names.deep_view(), values.deep_view()),
{
    let ghost all = paired(names.deep_view(), values.deep_view());
    let mut members: Vec<(String, String)> = Vec::new();
    let mut i: usize = 0;
    assert(members.deep_view() =~= all.take(0));
    while i < names.len()
        invariant
            i <= names.len(),
            names.len() == values.len(),
            members.deep_view() == all.take(i as int),
        decreases names.len() - i,
    {
        assert(names.deep_view()[i as int] == names[i as int]@);
        assert(values.deep_view()[i as int] == values[i as int]@);
        let member = (names[i].clone(), trim(values[i].as_str()));
        assert(member.deep_view() == all[i as int]);
        push_item(&mut members, member);
        i += 1;
        assert(members.deep_view() =~= all.take(i as int));
    }
    assert(all.take(i as int) =~= all);
    members
}

/// The members of a structure with the given names in a JSON text: those of
/// an object, none of the names twice, or a list of as many values, in the
/// order of the names.
pub open spec fn json_fields(text: Seq<char>, names: Seq<Seq<char>>) -> Option<
    Seq<(Seq<char>, Seq<char>)>,
> {
    if !json_valid(text) {
        None
    } else {
        match (json_inside(text, '{', '}'), json_inside(text, '[', ']')) {
            (Some(inside), _) => match json_members(json_items(inside)) {
                Some(members) => if once_each(members, names) {
                    Some(members)
                } else {
                    None
                },
                None => None,
            },
            (None, Some(inside)) => if json_items(inside).len() == names.len() {
                Some(paired(names, json_items(inside)))
            } else {
                None
            },
            (None, None) => None,
        }
    }
}

/// The members of a structure with the given names in a JSON text.
pub fn read_fields(text: &str, names: &Vec<String>) -> (r: Result<Vec<(String, String)>, String>)
    ensures
        match r {
            Ok(members) => json_fields(text@, names.deep_view()) == Some(members.deep_view()),
            Err(_) => json_fields(text@, names.deep_view()) is None,
        },
{
    if let Err(message) = check_json(text) {
        return Err(message);
    }
    if let Some(inside) = read_inside(text, '{', '}') {
        let items = read_items(inside.as_str());
        return match read_members(&items) {
            Ok(members) => if are_once_each(&members, names) {
                Ok(members)
            } else {
                Err(owned("duplicate field"))
            },
            Err(message) => Err(message),
        };
    }
    match read_inside(text, '[', ']') {
        Some(inside) => {
            let items = read_items(inside.as_str());
            assert(items.deep_view().len() == items.len());
            if items.len() == names.len() {
                Ok(pair(names, &items))
            } else {
                Err(owned("invalid length"))
            }
        },
        None => Err(owned("invalid type")),
    }
}

/// The value of the first member with a name.
pub open spec fn member_of(members: Seq<(Seq<char>, Seq<char>)>, name: Seq<char>) -> Option<
    Seq<char>,
>
    decreases members.len(),
{
    if members.len() == 0 {
        None
    } else if members[0].0 == name {
        Some(members[0].1)
    } else {
        member_of(members.skip(1), name)
    }
}

/// The value of the first member with a name.
pub fn find_member<'a>(members: &'a Vec<(String, String)>, name: &str) -> (r: Option<&'a str>)
    ensures
        r.deep_view() == member_of(members.deep_view(), name@),
{
    let ghost view = members.deep_view();
    let mut i: usize = 0;
    assert(view.skip(0) =~= view);
    while i < members.len()
        invariant
            i <= members.len(),
            member_of(view.skip(i as int), name@) == member_of(view, name@),
        decreases members.len() - i,
    {
        assert(view.skip(i as int)[0] == members[i as int].deep_view());
        assert(view.skip(i as int).skip(1) =~= view.skip(i + 1));
        if same(members[i].0.as_str(), name) {
            return Some(members[i].1.as_str());
        }
        i += 1;
    }
    assert(view.skip(i as int).len() == 0);
    None
}

} // verus!
