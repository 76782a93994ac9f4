//! What holds of all small scripts: how their assignments, branches and bodies
//! are read.
use super::classify::{dynamic, first_name, mutating, segment_of, valid_powershell};
use super::mini::{
    assignment_of, body_of, body_segment, body_segments, branch_at, branches_of, chain_from,
    chain_of, close_from, close_of, condition_of, enclosed, has_wildcard, keyword_start, past_space,
    resolved_value, script_from, script_like, script_of, substituted, substituted_all, tested_path,
    top_parts, top_parts_from, variable_name,
};
use super::operation::{BranchView, OperationView};
use super::reading_laws::{
    all_bare, bare, call, lemma_call_is_calm, lemma_spelled, lower_ascii, spelled,
};
use super::words::tokens_of;
use crate::case::ascii_lowercase;
use crate::text::{lemma_leading, occurs_at, trimmed_start, whitespace, CharClass};
use crate::text_laws::{law_tight, law_trim, lemma_position_behind, tight};
use vstd::prelude::*;
use vstd::string::*;

verus! {

// Variables.

/// Whether a text can be assigned: it holds no dollar sign, no backtick and no
/// line end.
pub open spec fn literal(value: Seq<char>) -> bool {
    !value.contains('$') && !value.contains('`') && !value.contains('\n') && !value.contains('\r')
}

/// Whether a text can name a variable: letters, digits and underscores.
pub open spec fn simple_name(name: Seq<char>) -> bool {
    name.len() > 0 && forall|i: int|
        0 <= i < name.len() ==> ('a' <= #[trigger] name[i] && name[i] <= 'z') || ('A' <= name[i]
            && name[i] <= 'Z') || ('0' <= name[i] && name[i] <= '9') || name[i] == '_'
}

proof fn lemma_variable(name: Seq<char>)
    requires
        simple_name(name),
    ensures
        super::mini::simple_variable(seq!['$'] + name),
        variable_name(seq!['$'] + name) == ascii_lowercase(name),
{
    let s = seq!['$'] + name;
    assert(s.skip(1) =~= name);
    assert(s[1] == name[0]);
    lemma_leading(s, CharClass::Only('$'), 1);
    assert(trimmed_start(s, CharClass::Only('$')) =~= name);
}

/// An assignment gives a variable the text between the quotes; variables are
/// the same in any case.
#[verifier::rlimit(40)]
pub proof fn law_assignment(name: Seq<char>, value: Seq<char>, quote: char)
    requires
        simple_name(name),
        quote == '"' || quote == '\'',
    ensures
        literal(value) ==> assignment_of(
            seq!['$'] + name + seq![' ', '=', ' '] + seq![quote] + value + seq![quote],
        ) == Some((ascii_lowercase(name), value)),
        !literal(value) ==> assignment_of(
            seq!['$'] + name + seq![' ', '=', ' '] + seq![quote] + value + seq![quote],
        ) is None,
{
    let e = Seq::<char>::empty();
    let space = seq![' '];
    let variable = seq!['$'] + name;
    let quoted = seq![quote] + value + seq![quote];
    let s = seq!['$'] + name + seq![' ', '=', ' '] + seq![quote] + value + seq![quote];
    let left = variable + space;
    let right = space + quoted;
    assert(s =~= left + seq!['='] + right);
    assert(!left.contains('=')) by {
        if left.contains('=') {
            let i = left.index_of('=');
            if 0 < i <= name.len() {
                assert(name[i - 1] == '=');
            }
        }
    }
    lemma_position_behind(left, '=', right);
    assert(s.take(left.len() as int) =~= left);
    assert(s.skip(left.len() as int + 1) =~= right);
    assert(!whitespace('$') && !whitespace('"') && !whitespace('\''));
    assert(variable.last() == name.last());
    law_trim(e, variable, space);
    assert(e + variable + space =~= left);
    assert(quoted.last() == quote);
    law_trim(space, quoted, e);
    assert(space + quoted + e =~= right);
    assert(quoted.subrange(1, quoted.len() - 1) =~= value);
    lemma_variable(name);
}

/// A variable stands for what was assigned to it last, in any case; a word
/// that is no variable stands for itself, but not where it holds a dollar sign.
pub proof fn law_variables(
    variables: Seq<(Seq<char>, Seq<char>)>,
    name: Seq<char>,
    value: Seq<char>,
    word: Seq<char>,
)
    requires
        simple_name(name),
    ensures
        resolved_value(variables.push((ascii_lowercase(name), value)), seq!['$'] + name) == Some(
            value,
        ),
        resolved_value(Seq::empty(), seq!['$'] + name) is None,
        literal(word) ==> resolved_value(variables, word) == Some(word),
        literal(word) ==> substituted(word, variables) == Some(word),
        !value.contains('\'') ==> substituted(
            seq!['$'] + name,
            variables.push((ascii_lowercase(name), value)),
        ) == Some(seq!['\''] + value + seq!['\'']),
        substituted(word + seq!['$'], variables) is None,
{
    lemma_variable(name);
    if literal(word) {
        if word.len() > 0 && word[0] == '$' {
            assert(word.contains(word[0]));
        }
    }
    let ended = word + seq!['$'];
    assert(ended.contains('$')) by {
        assert(ended[word.len() as int] == '$');
    }
    if super::mini::simple_variable(ended) {
        let rest = ended.skip(1);
        assert(rest[rest.len() - 1] == '$');
        assert(rest.last() == '$');
    }
}

/// A path with a wildcard is not tested.
pub proof fn law_no_wildcards(variables: Seq<(Seq<char>, Seq<char>)>, p: Seq<char>, c: char, q: Seq<char>)
    requires
        c == '*' || c == '?' || c == '[' || c == ']',
    ensures
        tested_path(variables, Some(p + seq![c] + q), Seq::empty()) is None,
        tested_path(variables, None, seq![p + seq![c] + q]) is None,
{
    let s = p + seq![c] + q;
    assert(s[p.len() as int] == c);
    assert(s.contains(c));
    assert(has_wildcard(s));
    assert(seq![s][0] == s);
    if p.len() > 0 {
        assert(s.skip(1)[p.len() - 1] == c);
    }
    assert(!super::mini::simple_variable(s));
}

// Branches.

/// Whether a text is flat: without quotes, parentheses, braces and semicolons.
pub open spec fn flat(s: Seq<char>) -> bool {
    forall|i: int|
        0 <= i < s.len() ==> #[trigger] s[i] != '"' && s[i] != '\'' && s[i] != '(' && s[i] != ')'
            && s[i] != '{' && s[i] != '}' && s[i] != ';'
}

proof fn lemma_close(
    pre: Seq<char>,
    inner: Seq<char>,
    rest: Seq<char>,
    open: char,
    close: char,
    at: int,
)
    requires
        flat(inner),
        open == '(' && close == ')' || open == '{' && close == '}',
        0 <= at <= inner.len(),
    ensures
        close_from(
            pre + inner + seq![close] + rest,
            pre.len() + at,
            open,
            close,
            1,
            None,
        ) == Some((pre.len() + inner.len()) as int),
    decreases inner.len() - at,
{
    let s = pre + inner + seq![close] + rest;
    let i = pre.len() + at;
    if at == inner.len() {
        assert(s[i] == close);
    } else {
        assert(s[i] == inner[at]);
        lemma_close(pre, inner, rest, open, close, at + 1);
        assert(pre.len() + (at + 1) == i + 1);
    }
}

/// What stands in parentheses or braces behind a space.
proof fn lemma_enclosed(pre: Seq<char>, inner: Seq<char>, rest: Seq<char>, open: char, close: char)
    requires
        flat(inner),
        open == '(' && close == ')' || open == '{' && close == '}',
    ensures
        enclosed(
            pre + seq![' ', open] + inner + seq![close] + rest,
            pre.len() as int,
            open,
            close,
        ) == Some((inner, (pre.len() + 3 + inner.len()) as int)),
{
    let s = pre + seq![' ', open] + inner + seq![close] + rest;
    let i = pre.len() as int;
    let from = s.skip(i);
    assert(from[0] == ' ' && from[1] == open);
    lemma_leading(from, CharClass::Space, 1);
    assert(past_space(s, i) == i + 1);
    assert(s[i + 1] == open);
    let before = pre + seq![' ', open];
    assert(s =~= before + inner + seq![close] + rest);
    lemma_close(before, inner, rest, open, close, 0);
    assert(close_of(s, i + 1, open, close) == Some((before.len() + inner.len()) as int));
    let end = (before.len() + inner.len()) as int;
    assert(s.subrange(i + 2, end) =~= inner);
}

proof fn lemma_keyword(pre: Seq<char>, keyword: Seq<char>, lower: Seq<char>, rest: Seq<char>)
    requires
        spelled(keyword, lower),
        lower_ascii(lower) && lower.len() > 0 && 'a' <= lower[0] && lower[0] <= 'z',
        rest.len() > 0 && rest[0] == ' ',
    ensures
        keyword_start((pre + keyword + rest).skip(pre.len() as int), lower),
        past_space(pre + keyword + rest, pre.len() as int) == pre.len(),
        !whitespace(keyword[0]),
{
    let s = pre + keyword + rest;
    let t = s.skip(pre.len() as int);
    assert(t =~= keyword + rest);
    assert(super::reading_laws::same_letter(keyword[0], lower[0]));
    assert(t[0] == keyword[0]);
    lemma_leading(t, CharClass::Space, 0);
    assert(trimmed_start(t, CharClass::Space) =~= t);
    assert(t.take(lower.len() as int) =~= keyword);
    lemma_spelled(keyword, lower);
    lemma_spelled(lower, lower);
    assert(t[lower.len() as int] == ' ');
    assert(whitespace(' '));
}

/// The text of a branch with a condition.
pub open spec fn branch_text(keyword: Seq<char>, condition: Seq<char>, body: Seq<char>) -> Seq<char> {
    keyword + seq![' ', '('] + condition + seq![')', ' ', '{'] + body + seq!['}']
}

#[verifier::spinoff_prover]
#[verifier::rlimit(60)]
proof fn lemma_branch(
    pre: Seq<char>,
    keyword: Seq<char>,
    condition: Seq<char>,
    body: Seq<char>,
    rest: Seq<char>,
    variables: Seq<(Seq<char>, Seq<char>)>,
    cwd: Option<Seq<char>>,
)
    requires
        flat(condition) && flat(body),
        condition_of(condition, variables) is Some && body_of(body, variables, cwd) is Some,
    ensures
        branch_at(
            pre + branch_text(keyword, condition, body) + rest,
            (pre.len() + keyword.len()) as int,
            true,
            variables,
            cwd,
        ) == Some(
            (
                BranchView {
                    condition: condition_of(condition, variables),
                    segments: body_of(body, variables, cwd)->0,
                },
                (pre.len() + branch_text(keyword, condition, body).len()) as int,
            ),
        ),
{
    let a = pre + keyword;
    let behind = seq![' ', '{'] + body + seq!['}'] + rest;
    lemma_branch_shape(pre, keyword, condition, body, rest);
    lemma_enclosed(a, condition, behind, '(', ')');
    let b = a + seq![' ', '('] + condition + seq![')'];
    lemma_enclosed(b, body, rest, '{', '}');
}

proof fn lemma_branch_shape(
    pre: Seq<char>,
    keyword: Seq<char>,
    condition: Seq<char>,
    body: Seq<char>,
    rest: Seq<char>,
)
    ensures
        pre + branch_text(keyword, condition, body) + rest == (pre + keyword) + seq![' ', '(']
            + condition + seq![')'] + (seq![' ', '{'] + body + seq!['}'] + rest),
        pre + branch_text(keyword, condition, body) + rest == (pre + keyword + seq![' ', '(']
            + condition + seq![')']) + seq![' ', '{'] + body + seq!['}'] + rest,
        branch_text(keyword, condition, body).len() == keyword.len() + condition.len() + body.len()
            + 6,
        (pre + keyword + seq![' ', '('] + condition + seq![')']).len() == pre.len() + keyword.len()
            + condition.len() + 3,
{
    let s = pre + branch_text(keyword, condition, body) + rest;
    assert(s =~= (pre + keyword) + seq![' ', '('] + condition + seq![')'] + (seq![' ', '{'] + body
        + seq!['}'] + rest));
    assert(s =~= (pre + keyword + seq![' ', '('] + condition + seq![')']) + seq![' ', '{'] + body
        + seq!['}'] + rest);
}

/// A script of one branch has its condition and its body.
pub proof fn law_if(
    keyword: Seq<char>,
    condition: Seq<char>,
    body: Seq<char>,
    variables: Seq<(Seq<char>, Seq<char>)>,
    cwd: Option<Seq<char>>,
)
    requires
        spelled(keyword, "if"@),
        flat(condition) && flat(body),
        condition_of(condition, variables) is Some && body_of(body, variables, cwd) is Some,
    ensures
        chain_of(branch_text(keyword, condition, body), variables, cwd) == Some(
            seq![
                BranchView {
                    condition: condition_of(condition, variables),
                    segments: body_of(body, variables, cwd)->0,
                },
            ],
        ),
{
    reveal_strlit("if");
    let e = Seq::<char>::empty();
    let s = branch_text(keyword, condition, body);
    lemma_start(keyword, condition, body, e);
    lemma_branch(e, keyword, condition, body, e, variables, cwd);
    assert(e + s + e =~= s);
    assert(s + e =~= s);
    let k = s.len() as int;
    assert(s.skip(k) =~= e);
    assert(past_space(s, k) == k);
}

proof fn lemma_start(keyword: Seq<char>, condition: Seq<char>, body: Seq<char>, rest: Seq<char>)
    requires
        spelled(keyword, "if"@),
    ensures
        keyword_start((branch_text(keyword, condition, body) + rest).skip(0), "if"@),
        past_space(branch_text(keyword, condition, body) + rest, 0) == 0,
        keyword.len() == 2,
{
    reveal_strlit("if");
    let e = Seq::<char>::empty();
    let s = branch_text(keyword, condition, body) + rest;
    let behind = seq![' ', '('] + condition + seq![')', ' ', '{'] + body + seq!['}'] + rest;
    assert(s =~= e + keyword + behind);
    lemma_keyword(e, keyword, "if"@, behind);
}

proof fn lemma_else_shape(first: Seq<char>, other: Seq<char>, last: Seq<char>)
    ensures
        ({
            let s = first + seq![' '] + other + seq![' ', '{'] + last + seq!['}'];
            let rest = seq![' '] + other + seq![' ', '{'] + last + seq!['}'];
            let behind = seq![' ', '{'] + last + seq!['}'];
            let e = Seq::<char>::empty();
            &&& s == first + rest
            &&& s == e + first + rest
            &&& s == (first + seq![' ']) + other + behind
            &&& s == (first + seq![' '] + other) + seq![' ', '{'] + last + seq!['}'] + e
            &&& s.len() == first.len() + other.len() + last.len() + 4
        }),
{
    let s = first + seq![' '] + other + seq![' ', '{'] + last + seq!['}'];
    let rest = seq![' '] + other + seq![' ', '{'] + last + seq!['}'];
    let behind = seq![' ', '{'] + last + seq!['}'];
    let e = Seq::<char>::empty();
    assert(s =~= first + rest);
    assert(e + first =~= first);
    assert(s =~= (first + seq![' ']) + other + behind);
    assert(s =~= (first + seq![' '] + other) + seq![' ', '{'] + last + seq!['}'] + e);
}

proof fn lemma_not_else_if(pre: Seq<char>, other: Seq<char>, behind: Seq<char>)
    requires
        spelled(other, "else"@),
        behind.len() > 0 && behind[0] == ' ',
    ensures
        !keyword_start((pre + other + behind).skip(pre.len() as int), "elseif"@),
{
    reveal_strlit("else");
    reveal_strlit("elseif");
    let t = (pre + other + behind).skip(pre.len() as int);
    assert(t =~= other + behind);
    assert(super::reading_laws::same_letter(other[0], "else"@[0]));
    lemma_leading(t, CharClass::Space, 0);
    assert(trimmed_start(t, CharClass::Space) =~= t);
    if t.len() >= 6 {
        assert(t.take(6)[4] == ' ');
        assert(ascii_lowercase(t.take(6))[4] == ' ');
        assert("elseif"@[4] == 'i');
        assert(ascii_lowercase("elseif"@)[4] == 'i');
    }
}

/// A script with an alternative has a second branch without a condition.
#[verifier::spinoff_prover]
#[verifier::rlimit(60)]
pub proof fn law_else(
    keyword: Seq<char>,
    condition: Seq<char>,
    body: Seq<char>,
    other: Seq<char>,
    last: Seq<char>,
    variables: Seq<(Seq<char>, Seq<char>)>,
    cwd: Option<Seq<char>>,
)
    requires
        spelled(keyword, "if"@) && spelled(other, "else"@),
        flat(condition) && flat(body) && flat(last),
        condition_of(condition, variables) is Some && body_of(body, variables, cwd) is Some
            && body_of(last, variables, cwd) is Some,
    ensures
        chain_of(
            branch_text(keyword, condition, body) + seq![' '] + other + seq![' ', '{'] + last
                + seq!['}'],
            variables,
            cwd,
        ) == Some(
            seq![
                BranchView {
                    condition: condition_of(condition, variables),
                    segments: body_of(body, variables, cwd)->0,
                },
                BranchView { condition: None, segments: body_of(last, variables, cwd)->0 },
            ],
        ),
{
    reveal_strlit("if");
    reveal_strlit("else");
    reveal_strlit("elseif");
    let e = Seq::<char>::empty();
    let first = branch_text(keyword, condition, body);
    let rest = seq![' '] + other + seq![' ', '{'] + last + seq!['}'];
    let s = first + seq![' '] + other + seq![' ', '{'] + last + seq!['}'];
    lemma_else_shape(first, other, last);
    lemma_start(keyword, condition, body, rest);
    lemma_branch(e, keyword, condition, body, rest, variables, cwd);
    let k = first.len() as int;
    let pre = first + seq![' '];
    let behind = seq![' ', '{'] + last + seq!['}'];
    lemma_keyword(pre, other, "else"@, behind);
    let from = s.skip(k);
    assert(from[0] == ' ' && from[1] == other[0]);
    lemma_leading(from, CharClass::Space, 1);
    assert(past_space(s, k) == k + 1);
    let j = k + 1;
    lemma_not_else_if(pre, other, behind);
    let b = pre + other;
    lemma_enclosed(b, last, e, '{', '}');
    let end = s.len() as int;
    assert(end == b.len() + 3 + last.len());
    assert(s.skip(end) =~= e);
    assert(past_space(s, end) == end);
    let one = BranchView {
        condition: condition_of(condition, variables),
        segments: body_of(body, variables, cwd)->0,
    };
    let two = BranchView { condition: None, segments: body_of(last, variables, cwd)->0 };
    assert(branch_at(s, j + 4, false, variables, cwd) == Some((two, end)));
    assert(chain_from(s, k, seq![one], variables, cwd) == Some(seq![one].push(two)));
    assert(seq![one].push(two) =~= seq![one, two]);
}

proof fn lemma_next_shape(first: Seq<char>, other: Seq<char>, second: Seq<char>, last: Seq<char>)
    ensures
        ({
            let next = branch_text(other, second, last);
            let s = first + seq![' '] + next;
            let behind = seq![' ', '('] + second + seq![')', ' ', '{'] + last + seq!['}'];
            let e = Seq::<char>::empty();
            &&& s == first + (seq![' '] + next)
            &&& s == e + first + (seq![' '] + next)
            &&& s == (first + seq![' ']) + other + behind
            &&& s == (first + seq![' ']) + next + e
        }),
{
    let next = branch_text(other, second, last);
    let s = first + seq![' '] + next;
    let behind = seq![' ', '('] + second + seq![')', ' ', '{'] + last + seq!['}'];
    let e = Seq::<char>::empty();
    assert(s =~= first + (seq![' '] + next));
    assert(e + first =~= first);
    assert(next =~= other + behind);
    assert(s =~= (first + seq![' ']) + other + behind);
    assert(s =~= (first + seq![' ']) + next + e);
}

/// A script with a second condition has a second branch with it.
#[verifier::spinoff_prover]
#[verifier::rlimit(60)]
pub proof fn law_else_if(
    keyword: Seq<char>,
    condition: Seq<char>,
    body: Seq<char>,
    other: Seq<char>,
    second: Seq<char>,
    last: Seq<char>,
    variables: Seq<(Seq<char>, Seq<char>)>,
    cwd: Option<Seq<char>>,
)
    requires
        spelled(keyword, "if"@) && spelled(other, "elseif"@),
        flat(condition) && flat(body) && flat(second) && flat(last),
        condition_of(condition, variables) is Some && body_of(body, variables, cwd) is Some,
        condition_of(second, variables) is Some && body_of(last, variables, cwd) is Some,
    ensures
        chain_of(
            branch_text(keyword, condition, body) + seq![' '] + branch_text(other, second, last),
            variables,
            cwd,
        ) == Some(
            seq![
                BranchView {
                    condition: condition_of(condition, variables),
                    segments: body_of(body, variables, cwd)->0,
                },
                BranchView {
                    condition: condition_of(second, variables),
                    segments: body_of(last, variables, cwd)->0,
                },
            ],
        ),
{
    reveal_strlit("if");
    reveal_strlit("elseif");
    let e = Seq::<char>::empty();
    let first = branch_text(keyword, condition, body);
    let next = branch_text(other, second, last);
    let rest = seq![' '] + next;
    let s = first + seq![' '] + next;
    lemma_next_shape(first, other, second, last);
    lemma_start(keyword, condition, body, rest);
    lemma_branch(e, keyword, condition, body, rest, variables, cwd);
    let k = first.len() as int;
    let pre = first + seq![' '];
    let behind = seq![' ', '('] + second + seq![')', ' ', '{'] + last + seq!['}'];
    lemma_keyword(pre, other, "elseif"@, behind);
    let from = s.skip(k);
    assert(from[0] == ' ' && from[1] == other[0]);
    lemma_leading(from, CharClass::Space, 1);
    assert(past_space(s, k) == k + 1);
    lemma_branch(pre, other, second, last, e, variables, cwd);
    let end = s.len() as int;
    assert(s.skip(end) =~= e);
    assert(past_space(s, end) == end);
    let one = BranchView {
        condition: condition_of(condition, variables),
        segments: body_of(body, variables, cwd)->0,
    };
    let two = BranchView {
        condition: condition_of(second, variables),
        segments: body_of(last, variables, cwd)->0,
    };
    let both = seq![one].push(two);
    assert(chain_from(s, end, both, variables, cwd) == Some(both));
    assert(chain_from(s, k, seq![one], variables, cwd) == Some(both));
    assert(both =~= seq![one, two]);
}

/// Assignments come before the branches and hold in them; nothing comes
/// behind the branches.
pub proof fn law_script_parts(
    assignment: Seq<char>,
    script: Seq<char>,
    variables: Seq<(Seq<char>, Seq<char>)>,
    cwd: Option<Seq<char>>,
)
    requires
        !keyword_start(assignment, "if"@),
        keyword_start(script, "if"@),
    ensures
        script_from(seq![script], 0, variables, cwd) == chain_of(script, variables, cwd),
        assignment_of(assignment) matches Some(assigned) ==> script_from(
            seq![assignment, script],
            0,
            variables,
            cwd,
        ) == chain_of(script, variables.push(assigned), cwd),
        assignment_of(assignment) is None ==> script_from(
            seq![assignment, script],
            0,
            variables,
            cwd,
        ) is None,
        script_from(seq![script, assignment], 0, variables, cwd) is None,
        script_from(Seq::empty(), 0, variables, cwd) is None,
{
    reveal_with_fuel(script_from, 3);
}

// Bodies.

proof fn lemma_top_flat(s: Seq<char>, parens: nat, braces: nat, part: Seq<char>, rest: Seq<char>)
    requires
        flat(s),
    ensures
        top_parts_from(s + rest, None, parens, braces, part) == top_parts_from(
            rest,
            None,
            parens,
            braces,
            part + s,
        ),
    decreases s.len(),
{
    let all = s + rest;
    if s.len() == 0 {
        assert(all =~= rest);
        assert(part + s =~= part);
    } else {
        assert(all[0] == s[0]);
        let less = s.skip(1);
        assert(all.skip(1) =~= less + rest);
        assert forall|i: int| 0 <= i < less.len() implies #[trigger] less[i] != '"' && less[i]
            != '\'' && less[i] != '(' && less[i] != ')' && less[i] != '{' && less[i] != '}'
            && less[i] != ';' by {
            assert(less[i] == s[i + 1]);
        }
        lemma_top_flat(less, parens, braces, part.push(s[0]), rest);
        assert(part.push(s[0]) + less =~= part + s);
    }
}

/// The parts of a script are told apart by semicolons, but not by those in
/// parentheses or braces.
pub proof fn law_script_semicolons(a: Seq<char>, b: Seq<char>)
    requires
        flat(a) && flat(b),
        a.len() > 0 && tight(a) && b.len() > 0 && tight(b),
    ensures
        top_parts(a) == Some(seq![a]),
        top_parts(a + seq![';'] + b) == Some(seq![a, b]),
        top_parts(seq!['{'] + a + seq![';'] + b + seq!['}']) == Some(
            seq![seq!['{'] + a + seq![';'] + b + seq!['}']],
        ),
        top_parts(seq!['('] + a + seq![';'] + b + seq![')']) == Some(
            seq![seq!['('] + a + seq![';'] + b + seq![')']],
        ),
        top_parts(a + seq![';']) is None,
{
    let e = Seq::<char>::empty();
    law_tight(a);
    law_tight(b);
    lemma_top_flat(a, 0, 0, e, e);
    assert(a + e =~= a && e + a =~= a && e + b =~= b && b + e =~= b);
    assert(seq![a][0] == a);
    let tail = seq![';'] + b;
    assert(a + seq![';'] + b =~= a + tail);
    lemma_top_flat(a, 0, 0, e, tail);
    assert(tail.skip(1) =~= b);
    lemma_top_flat(b, 0, 0, e, e);
    assert(top_parts_from(b, None, 0, 0, e) == Some(seq![b]));
    assert(seq![a] + seq![b] =~= seq![a, b]);
    assert(seq![a, b][0] == a && seq![a, b][1] == b);
    let end = seq![';'];
    lemma_top_flat(a, 0, 0, e, end);
    assert(end.skip(1) =~= e);
    law_tight(e);
    assert(top_parts_from(e, None, 0, 0, e) == Some(seq![e]));
    assert((seq![a] + seq![e])[1] == e);
    lemma_inside(a, b, '{', '}');
    lemma_inside(a, b, '(', ')');
}

#[verifier::rlimit(40)]
proof fn lemma_inside(a: Seq<char>, b: Seq<char>, open: char, close: char)
    requires
        flat(a) && flat(b),
        open == '(' && close == ')' || open == '{' && close == '}',
    ensures
        top_parts(seq![open] + a + seq![';'] + b + seq![close]) == Some(
            seq![seq![open] + a + seq![';'] + b + seq![close]],
        ),
{
    let e = Seq::<char>::empty();
    let s = seq![open] + a + seq![';'] + b + seq![close];
    let parens: nat = if open == '(' {
        1
    } else {
        0
    };
    let braces: nat = if open == '(' {
        0
    } else {
        1
    };
    let after_open = a + (seq![';'] + (b + seq![close]));
    assert(s[0] == open);
    assert(s.skip(1) =~= after_open);
    assert(e.push(open) =~= seq![open]);
    lemma_top_flat(a, parens, braces, seq![open], seq![';'] + (b + seq![close]));
    let p = seq![open] + a;
    let behind = seq![';'] + (b + seq![close]);
    assert(behind[0] == ';');
    assert(behind.skip(1) =~= b + seq![close]);
    lemma_top_flat(b, parens, braces, p.push(';'), seq![close]);
    let q = p.push(';') + b;
    let last = seq![close];
    assert(last[0] == close);
    assert(last.skip(1) =~= e);
    assert(q.push(close) =~= s);
    assert(s.last() == close);
    law_tight(s);
    assert(top_parts_from(e, None, 0, 0, s) == Some(seq![s]));
    assert(seq![s][0] == s);
}

/// A command in a body without variables is done as it is alone, but not where
/// it changes something.
pub proof fn law_body_commands(
    words: Seq<Seq<char>>,
    variables: Seq<(Seq<char>, Seq<char>)>,
    cwd: Option<Seq<char>>,
)
    requires
        all_bare(words),
        forall|i: int| 0 <= i < words.len() ==> literal(#[trigger] words[i]),
        !keyword_start(call(words), "if"@),
    ensures
        mutating(call(words), first_name(call(words))) ==> body_segment(call(words), variables, cwd)
            is None,
        !mutating(call(words), first_name(call(words))) ==> body_segment(
            call(words),
            variables,
            cwd,
        ) == segment_of(call(words), cwd, valid_powershell(call(words))),
{
    reveal_strlit(" ");
    assert(" "@ =~= seq![' ']);
    assert forall|i: int| 0 <= i < words.len() implies super::laws::plain_word(
        #[trigger] words[i],
    ) by {
        assert(bare(words[i]));
        assert(words[i][0] != '"');
    }
    super::laws::law_words_of_joined(words);
    assert(tokens_of(call(words)) == Some(words));
    lemma_unchanged(words, variables);
    lemma_call_is_calm(words);
    law_tight(call(words));
}

proof fn lemma_unchanged(words: Seq<Seq<char>>, variables: Seq<(Seq<char>, Seq<char>)>)
    requires
        forall|i: int| 0 <= i < words.len() ==> literal(#[trigger] words[i]),
    ensures
        substituted_all(words, variables) == Some(words),
    decreases words.len(),
{
    if words.len() > 0 {
        let before = words.drop_last();
        assert forall|i: int| 0 <= i < before.len() implies literal(#[trigger] before[i]) by {
            assert(before[i] == words[i]);
        }
        lemma_unchanged(before, variables);
        let last = words.last();
        assert(literal(words[words.len() - 1]));
        if last.len() > 0 && last[0] == '$' {
            assert(last.contains(last[0]));
        }
        assert(before.push(last) =~= words);
    }
}

/// A body is the commands that it is made of, in order, and none where one of
/// them cannot be done.
pub proof fn law_bodies(
    parts: Seq<Seq<char>>,
    part: Seq<char>,
    variables: Seq<(Seq<char>, Seq<char>)>,
    cwd: Option<Seq<char>>,
)
    ensures
        body_segments(Seq::empty(), variables, cwd) == Some(
            Seq::<super::operation::SegmentView>::empty(),
        ),
        body_segments(parts, variables, cwd) is Some && body_segment(part, variables, cwd) is Some
            ==> body_segments(parts.push(part), variables, cwd) == Some(
            body_segments(parts, variables, cwd)->0.push(body_segment(part, variables, cwd)->0),
        ),
        body_segments(parts, variables, cwd) is None || body_segment(part, variables, cwd) is None
            ==> body_segments(parts.push(part), variables, cwd) is None,
{
    assert(parts.push(part).drop_last() =~= parts);
}

/// A script is done only where the shell would take it and where it builds no
/// commands; it has the branches that it is read as.
pub proof fn law_scripts(command: Seq<char>, cwd: Option<Seq<char>>, valid: bool)
    ensures
        !valid || dynamic(command) ==> script_of(command, cwd, valid) is None,
        script_of(command, cwd, valid) matches Some(operation) ==> branches_of(command, cwd)
            matches Some(branches) && branches.len() > 0 && operation == OperationView::MiniScript(
            branches,
        ),
        valid && !dynamic(command) && script_like(command) ==> (branches_of(command, cwd)
            matches Some(branches) && branches.len() > 0 ==> script_of(command, cwd, valid) == Some(
            OperationView::MiniScript(branches_of(command, cwd)->0),
        )),
{
}

/// A text with a condition and a test in it, in any case, and with a brace is
/// looked at as a script.
#[verifier::rlimit(40)]
pub proof fn law_script_like(
    a: Seq<char>,
    condition: Seq<char>,
    b: Seq<char>,
    test: Seq<char>,
    c: Seq<char>,
)
    requires
        spelled(condition, "if"@),
        spelled(test, "test-path"@),
        c.contains('{'),
    ensures
        script_like(a + condition + b + test + c),
{
    reveal_strlit("if");
    reveal_strlit("test-path");
    let s = a + condition + b + test + c;
    let t = ascii_lowercase(s);
    lemma_spelled(condition, "if"@);
    lemma_spelled(test, "test-path"@);
    let i = a.len() as int;
    let j = (a.len() + condition.len() + b.len()) as int;
    assert(t.subrange(i, i + 2) =~= "if"@) by {
        assert forall|k: int| 0 <= k < 2 implies t.subrange(i, i + 2)[k] == "if"@[k] by {
            assert(s[i + k] == condition[k]);
            assert(ascii_lowercase(condition)[k] == "if"@[k]);
        }
    }
    assert(t.subrange(j, j + 9) =~= "test-path"@) by {
        assert forall|k: int| 0 <= k < 9 implies t.subrange(j, j + 9)[k] == "test-path"@[k] by {
            assert(s[j + k] == test[k]);
            assert(ascii_lowercase(test)[k] == "test-path"@[k]);
        }
    }
    assert(occurs_at(t, "if"@, i));
    assert(occurs_at(t, "test-path"@, j));
    let k = c.index_of('{');
    assert(c[k] == '{');
    assert(s[j + 9 + k] == '{');
    assert(t[j + 9 + k] == '{');
}

} // verus!
