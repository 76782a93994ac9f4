//! What holds of all commands.
use super::classify::{
    alters, command_list_of, decision, dynamic, is_one, lenient_operation, list_segments,
    runs_program, segment_of, single_operation, strict_operation, valid_powershell, DecisionView,
    PassThroughReason,
};
use super::decision_of;
use super::filters::allowlisted;
use super::mini::{
    body_of, body_segments, branch_at, chain_from, script_from, script_of, substituted_command,
};
use super::operation::{BranchView, OperationView, SegmentView};
use super::words::{parts_of, quoted_start, solid_run, words_of};
use crate::case::lowered;
use crate::split::joined;
use crate::text::{has_text, trimmed, whitespace};
use vstd::prelude::*;

verus! {

/// Whether an operation holds no others.
pub open spec fn is_leaf(operation: OperationView) -> bool {
    !(operation is CommandList) && !(operation is MiniScript)
}

/// Whether a step is known to change nothing: a fast operation that holds no
/// others, or one of the few program calls that are allowed.
pub open spec fn safe_segment(segment: SegmentView) -> bool {
    match segment {
        SegmentView::Operation(operation) => is_leaf(*operation),
        SegmentView::ReadOnlyExternal(external) => allowlisted(external),
    }
}

/// Whether all steps are known to change nothing.
pub open spec fn safe_segments(segments: Seq<SegmentView>) -> bool {
    forall|i: int| 0 <= i < segments.len() ==> safe_segment(#[trigger] segments[i])
}

/// Whether an operation is known to change nothing.
pub open spec fn safe_operation(operation: OperationView) -> bool {
    match operation {
        OperationView::CommandList(segments) => segments.len() >= 2 && safe_segments(segments),
        OperationView::MiniScript(branches) => branches.len() >= 1 && forall|i: int|
            0 <= i < branches.len() ==> (#[trigger] branches[i]).segments.len() >= 1
                && safe_segments(branches[i].segments),
        _ => true,
    }
}

proof fn lemma_single_is_leaf(command: Seq<char>, cwd: Option<Seq<char>>)
    ensures
        single_operation(command, cwd) matches Some(operation) ==> is_leaf(operation),
{
}

proof fn lemma_segment_is_safe(part: Seq<char>, cwd: Option<Seq<char>>, valid: bool)
    ensures
        segment_of(part, cwd, valid) matches Some(segment) ==> safe_segment(segment),
{
    reveal(segment_of);
    lemma_single_is_leaf(trimmed(part), cwd);
}

proof fn lemma_list_is_safe(parts: Seq<Seq<char>>, cwd: Option<Seq<char>>)
    ensures
        list_segments(parts, cwd) matches Some(segments) ==> segments.len() == parts.len()
            && safe_segments(segments),
    decreases parts.len(),
{
    if parts.len() > 0 {
        lemma_list_is_safe(parts.drop_last(), cwd);
        lemma_segment_is_safe(parts.last(), cwd, valid_powershell(trimmed(parts.last())));
    }
}

proof fn lemma_body_is_safe(
    parts: Seq<Seq<char>>,
    variables: Seq<(Seq<char>, Seq<char>)>,
    cwd: Option<Seq<char>>,
)
    ensures
        body_segments(parts, variables, cwd) matches Some(segments) ==> safe_segments(segments),
    decreases parts.len(),
{
    if parts.len() > 0 {
        lemma_body_is_safe(parts.drop_last(), variables, cwd);
        if let Some(command) = substituted_command(parts.last(), variables) {
            lemma_segment_is_safe(command, cwd, valid_powershell(trimmed(command)));
        }
    }
}

/// Whether a branch has steps, all of them safe.
pub open spec fn safe_branch(branch: BranchView) -> bool {
    branch.segments.len() >= 1 && safe_segments(branch.segments)
}

proof fn lemma_branch_is_safe(
    s: Seq<char>,
    i: int,
    conditional: bool,
    variables: Seq<(Seq<char>, Seq<char>)>,
    cwd: Option<Seq<char>>,
)
    ensures
        branch_at(s, i, conditional, variables, cwd) matches Some((branch, _)) ==> safe_branch(
            branch,
        ),
{
    if let Some((branch, _)) = branch_at(s, i, conditional, variables, cwd) {
        assert(exists|body: Seq<char>| #[trigger]
            body_of(body, variables, cwd) == Some(branch.segments)) by {
            if conditional {
                let (_, j) = super::mini::enclosed(s, i, '(', ')')->0;
                let (body, _) = super::mini::enclosed(s, j, '{', '}')->0;
                assert(body_of(body, variables, cwd) == Some(branch.segments));
            } else {
                let (body, _) = super::mini::enclosed(s, i, '{', '}')->0;
                assert(body_of(body, variables, cwd) == Some(branch.segments));
            }
        }
        let body = choose|body: Seq<char>| #[trigger]
            body_of(body, variables, cwd) == Some(branch.segments);
        lemma_body_is_safe(super::mini::top_parts(body)->0, variables, cwd);
    }
}

proof fn lemma_chain_is_safe(
    s: Seq<char>,
    i: int,
    branches: Seq<BranchView>,
    variables: Seq<(Seq<char>, Seq<char>)>,
    cwd: Option<Seq<char>>,
)
    requires
        branches.len() >= 1,
        forall|k: int| 0 <= k < branches.len() ==> safe_branch(#[trigger] branches[k]),
    ensures
        chain_from(s, i, branches, variables, cwd) matches Some(all) ==> all.len() >= 1 && forall|
            k: int,
        |
            0 <= k < all.len() ==> safe_branch(#[trigger] all[k]),
    decreases s.len() - i,
{
    let j = super::mini::past_space(s, i);
    if j < s.len() {
        lemma_branch_is_safe(s, j + "elseif"@.len(), true, variables, cwd);
        lemma_branch_is_safe(s, j + "else"@.len(), false, variables, cwd);
        if super::mini::keyword_start(s.skip(j), "elseif"@) {
            if let Some((branch, k)) = branch_at(s, j + "elseif"@.len(), true, variables, cwd) {
                if i < k <= s.len() {
                    lemma_chain_is_safe(s, k, branches.push(branch), variables, cwd);
                }
            }
        }
    }
}

proof fn lemma_script_is_safe(
    parts: Seq<Seq<char>>,
    i: int,
    variables: Seq<(Seq<char>, Seq<char>)>,
    cwd: Option<Seq<char>>,
)
    ensures
        script_from(parts, i, variables, cwd) matches Some(all) ==> all.len() >= 1 && forall|
            k: int,
        |
            0 <= k < all.len() ==> safe_branch(#[trigger] all[k]),
    decreases parts.len() - i,
{
    if 0 <= i < parts.len() {
        if super::mini::keyword_start(parts[i], "if"@) {
            let s = parts[i];
            let j = super::mini::past_space(s, 0);
            lemma_branch_is_safe(s, j + "if"@.len(), true, variables, cwd);
            if let Some((branch, k)) = branch_at(s, j + "if"@.len(), true, variables, cwd) {
                lemma_chain_is_safe(s, k, seq![branch], variables, cwd);
            }
        } else if let Some(assignment) = super::mini::assignment_of(parts[i]) {
            lemma_script_is_safe(parts, i + 1, variables.push(assignment), cwd);
        }
    }
}

proof fn lemma_lenient_is_leaf(command: Seq<char>, cwd: Option<Seq<char>>)
    ensures
        lenient_operation(command, cwd) matches Some(operation) ==> is_leaf(operation),
{
}

proof fn lemma_strict_is_leaf(command: Seq<char>, cwd: Option<Seq<char>>)
    ensures
        strict_operation(command, cwd) matches Some(operation) ==> is_leaf(operation),
{
}

proof fn lemma_fast_cases(
    command: Seq<char>,
    cwd: Option<Seq<char>>,
    list: Option<OperationView>,
    script: Option<OperationView>,
    valid: bool,
)
    ensures
        decision(command, cwd, list, script, valid) matches DecisionView::Fast(operation)
            ==> list == Some(operation) || script == Some(operation) || is_leaf(operation),
{
    lemma_lenient_is_leaf(command, cwd);
    lemma_strict_is_leaf(command, cwd);
}

proof fn lemma_list_operation_is_safe(command: Seq<char>, cwd: Option<Seq<char>>)
    ensures
        command_list_of(command, cwd) matches Some(operation) ==> safe_operation(operation),
{
    if let Some(parts) = parts_of(command, ';') {
        lemma_list_is_safe(parts, cwd);
    }
}

proof fn lemma_script_operation_is_safe(command: Seq<char>, cwd: Option<Seq<char>>, valid: bool)
    ensures
        script_of(command, cwd, valid) matches Some(operation) ==> safe_operation(operation),
{
    if let Some(parts) = super::mini::top_parts(command) {
        lemma_script_is_safe(parts, 0, Seq::empty(), cwd);
    }
}

/// What is run in place of a command changes nothing: each step of a list or
/// of a script is a fast operation that holds no others, or one of the few
/// program calls that are allowed.
pub proof fn law_fast_is_safe(command: Seq<char>, cwd: Option<Seq<char>>)
    ensures
        decision_of(command, cwd) matches DecisionView::Fast(operation) ==> safe_operation(
            operation,
        ),
{
    let t = trimmed(command);
    let valid = valid_powershell(t);
    let list = command_list_of(t, cwd);
    let script = script_of(t, cwd, valid);
    lemma_list_operation_is_safe(t, cwd);
    lemma_script_operation_is_safe(t, cwd, valid);
    lemma_fast_cases(t, cwd, list, script, valid);
}

/// A command that computes what it runs is left to the shell, list or not.
pub proof fn law_dynamic_is_refused(command: Seq<char>, cwd: Option<Seq<char>>)
    requires
        has_text(command, "$("@) || command.contains('`') || has_text(
            lowered(command),
            "invoke-expression"@,
        ) || has_text(lowered(command), "iex"@),
    ensures
        decision_of(command, cwd) == DecisionView::PassThrough(PassThroughReason::DynamicOrUnsafe),
{
}

/// A command that redirects its output outside quotes, or starts with a
/// command that changes something, is left to the shell, list or not.
pub proof fn law_mutating_is_refused(command: Seq<char>, cwd: Option<Seq<char>>)
    requires
        alters(trimmed(command)),
    ensures
        decision_of(command, cwd) is PassThrough,
        !dynamic(command) && !dynamic(trimmed(command)) && trimmed(command).len() > 0
            ==> decision_of(command, cwd) == DecisionView::PassThrough(PassThroughReason::Mutating),
{
}

/// A command that is run fast neither computes what it runs, nor redirects
/// its output, nor starts with a command that changes something. Unless it is
/// a list, it holds no sign of redirection at all and does not start with a
/// program.
pub proof fn law_fast_refuses(command: Seq<char>, cwd: Option<Seq<char>>)
    requires
        decision_of(command, cwd) is Fast,
    ensures
        !dynamic(command),
        !dynamic(trimmed(command)),
        !alters(trimmed(command)),
        command_list_of(trimmed(command), cwd) is None ==> !trimmed(command).contains('>')
            && !runs_program(trimmed(command)),
{
}

/// A command with a semicolon outside quotes is run fast only as a list or as
/// a script: no single operation takes in what stands behind the semicolon.
pub proof fn law_lists_are_read_as_lists(command: Seq<char>, cwd: Option<Seq<char>>)
    requires
        !is_one(trimmed(command)),
    ensures
        decision_of(command, cwd) matches DecisionView::Fast(operation) ==> operation is CommandList
            || operation is MiniScript,
{
    if let Some(parts) = parts_of(trimmed(command), ';') {
        lemma_list_is_safe(parts, cwd);
    }
}

proof fn lemma_segment_refuses(part: Seq<char>, cwd: Option<Seq<char>>, valid: bool)
    requires
        segment_of(part, cwd, valid) is Some,
    ensures
        !alters(part),
        segment_of(part, cwd, valid)->0 is Operation ==> !dynamic(trimmed(part)),
{
    reveal(segment_of);
}

proof fn lemma_list_item(parts: Seq<Seq<char>>, cwd: Option<Seq<char>>, i: int)
    requires
        list_segments(parts, cwd) is Some,
        0 <= i < parts.len(),
    ensures
        list_segments(parts, cwd)->0.len() == parts.len(),
        segment_of(parts[i], cwd, valid_powershell(trimmed(parts[i]))) == Some(
            (list_segments(parts, cwd)->0)[i],
        ),
    decreases parts.len(),
{
    let before = parts.drop_last();
    lemma_list_is_safe(before, cwd);
    if i < before.len() {
        lemma_list_item(before, cwd, i);
    }
}

/// A list of commands is run fast only if none of its parts changes
/// something, and none computes what it runs apart from the allowed program
/// calls.
pub proof fn law_list_refuses(parts: Seq<Seq<char>>, cwd: Option<Seq<char>>, i: int)
    requires
        list_segments(parts, cwd) is Some,
        0 <= i < parts.len(),
    ensures
        !alters(parts[i]),
        (list_segments(parts, cwd)->0)[i] is Operation ==> !dynamic(trimmed(parts[i])),
{
    lemma_list_item(parts, cwd, i);
    lemma_segment_refuses(parts[i], cwd, valid_powershell(trimmed(parts[i])));
}

/// Whether a word needs no quotes: it is not empty, holds no white space and
/// does not start with a quote.
pub open spec fn plain_word(word: Seq<char>) -> bool {
    &&& word.len() > 0
    &&& word[0] != '"' && word[0] != '\''
    &&& forall|i: int| 0 <= i < word.len() ==> !whitespace(#[trigger] word[i])
}

pub proof fn lemma_run_of_word(word: Seq<char>, rest: Seq<char>)
    requires
        forall|i: int| 0 <= i < word.len() ==> !whitespace(#[trigger] word[i]),
        rest.len() > 0 ==> whitespace(rest[0]),
    ensures
        solid_run(word + rest) == word.len(),
    decreases word.len(),
{
    let s = word + rest;
    if word.len() > 0 {
        assert(s[0] == word[0]);
        assert(s.skip(1) =~= word.skip(1) + rest);
        assert forall|i: int| 0 <= i < word.skip(1).len() implies !whitespace(
            #[trigger] word.skip(1)[i],
        ) by {
            assert(word.skip(1)[i] == word[i + 1]);
        }
        lemma_run_of_word(word.skip(1), rest);
    } else {
        assert(s =~= rest);
    }
}

proof fn lemma_words_front(words: Seq<Seq<char>>)
    requires
        words.len() > 1,
    ensures
        joined(words, " "@) == words[0] + " "@ + joined(words.skip(1), " "@),
    decreases words.len(),
{
    if words.len() == 2 {
        assert(words.drop_last()[0] == words[0]);
        assert(joined(words.drop_last(), " "@) == words[0]);
        assert(words.skip(1)[0] == words[1]);
        assert(joined(words.skip(1), " "@) == words[1]);
        assert(words.last() == words[1]);
    } else {
        lemma_words_front(words.drop_last());
        assert(words.drop_last().skip(1) =~= words.skip(1).drop_last());
        assert(words.skip(1).last() == words.last());
        assert(joined(words, " "@) =~= words[0] + " "@ + joined(words.skip(1), " "@));
    }
}

/// Words that need no quotes are read back from the command that they make.
pub proof fn law_words_of_joined(words: Seq<Seq<char>>)
    requires
        forall|i: int| 0 <= i < words.len() ==> plain_word(#[trigger] words[i]),
    ensures
        words_of(joined(words, " "@)) == words,
    decreases words.len(),
{
    reveal_strlit(" ");
    if words.len() == 0 {
        assert(words_of(Seq::<char>::empty()) =~= words);
    } else {
        let first = words[0];
        assert(plain_word(first));
        assert(!whitespace(first[0]));
        if words.len() == 1 {
            lemma_run_of_word(first, Seq::empty());
            assert(first + Seq::<char>::empty() =~= first);
            assert(first.take(first.len() as int) =~= first);
            assert(first.skip(first.len() as int) =~= Seq::<char>::empty());
            assert(words_of(Seq::<char>::empty()) =~= Seq::<Seq<char>>::empty());
            assert(!quoted_start(first));
            assert(words_of(first) =~= seq![first]);
            assert(words =~= seq![first]);
        } else {
            lemma_words_front(words);
            let rest = words.skip(1);
            assert forall|i: int| 0 <= i < rest.len() implies plain_word(#[trigger] rest[i]) by {
                assert(rest[i] == words[i + 1]);
            }
            law_words_of_joined(rest);
            let tail = " "@ + joined(rest, " "@);
            let s = joined(words, " "@);
            assert(s =~= first + tail);
            assert(tail[0] == ' ');
            lemma_run_of_word(first, tail);
            assert(s[0] == first[0]);
            assert(!quoted_start(s));
            assert(s.take(first.len() as int) =~= first);
            assert(s.skip(first.len() as int) =~= tail);
            assert(tail.skip(1) =~= joined(rest, " "@));
            assert(words_of(tail) == words_of(tail.skip(1)));
            assert(words_of(s) =~= seq![first] + rest);
            assert(words =~= seq![first] + rest);
        }
    }
}

} // verus!
