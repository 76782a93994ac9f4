//! What the hook does about each call and what it prints, for all calls.
use super::codex_hook::{
    block_output, edit_output, failure_detail, plan_of, prompt_output, run_plan, HookRun, InputView,
    PlanView,
};
use super::execution::{
    kind_of, leaf_result, run_operation, run_segments, AnswerView, LeafRun, OperationRun,
    RequestView, StepsRun,
};
use super::hook_result::{
    body_of, header, result_lines, result_of_lines, result_of_segments, segment_lines, HookStatus,
    PartView, ResultView,
};
use super::post_edit_check::no_failure;
use crate::backends::grep::MatchView;
use crate::backends::laws::{alike_texts, lemma_alike_texts};
use crate::backends::projection::ReadOnlyExternalView;
use crate::case::ascii_lowercase;
use crate::json::{compact_json, json_string};
use crate::number::{decimal, law_number_round_trip};
use crate::shell_parse::classify::{DecisionView, UnknownView};
use crate::shell_parse::decision_of;
use crate::shell_parse::filters::allowlisted;
use crate::shell_parse::operation::{OperationView, SegmentView};
use crate::split::joined;
use crate::text::{after_prefix, has_text, trimmed};
use crate::text_laws::{law_ends, law_has_text, stands_in};
use crate::unknown_log::ContextView;
use vstd::prelude::*;
use vstd::string::*;

verus! {

// Plans.

proof fn lemma_events()
    ensures
        "UserPromptSubmit"@.len() == 16,
        "PostToolUse"@.len() == 11,
        "PreToolUse"@.len() == 10,
        "Stop"@.len() == 4,
{
    reveal_strlit("UserPromptSubmit");
    reveal_strlit("PostToolUse");
    reveal_strlit("PreToolUse");
    reveal_strlit("Stop");
}

/// A submitted prompt is looked up; so is a prompt that comes without an event
/// and without a tool call.
pub proof fn law_prompts_are_looked_up(
    input: InputView,
    prompt: Seq<char>,
    paths: Option<Seq<Seq<char>>>,
)
    requires
        input.prompt == Some(prompt),
        input.hook_event_name == Some("UserPromptSubmit"@) || (input.hook_event_name is None
            && input.tool_input is None),
    ensures
        plan_of(input, paths) == (PlanView::Enrich { prompt }),
{
}

/// At the end of a turn the project is checked, for the turn that ends.
pub proof fn law_turns_are_checked(
    input: InputView,
    cwd: Seq<char>,
    paths: Option<Seq<Seq<char>>>,
)
    requires
        input.hook_event_name == Some("Stop"@),
    ensures
        input.cwd == Some(cwd) ==> plan_of(input, paths) == (PlanView::CheckProject {
            cwd,
            session_id: input.session_id,
            turn_id: input.turn_id,
        }),
        input.cwd is None ==> plan_of(input, paths) is Ignore,
{
    lemma_events();
}

/// Whether an answer tells of a failure: it holds one of these words, in any
/// case.
pub open spec fn tells_of_failure(answer: Seq<char>) -> bool {
    exists|p: Seq<char>, word: Seq<char>, q: Seq<char>|
        answer == #[trigger] (p + word + q) && (alike_texts(word, "error"@) || alike_texts(
            word,
            "failed"@,
        ) || alike_texts(word, "invalid context"@) || alike_texts(word, "did not apply"@)
            || alike_texts(word, "exception"@))
}

proof fn lemma_word_in_any_case(answer: Seq<char>, lower: Seq<char>)
    requires
        ascii_lowercase(lower) == lower,
    ensures
        has_text(ascii_lowercase(answer), lower) <==> exists|
            p: Seq<char>,
            word: Seq<char>,
            q: Seq<char>,
        |
            answer == #[trigger] (p + word + q) && alike_texts(word, lower),
{
    let a = ascii_lowercase(answer);
    law_has_text(a, lower);
    if stands_in(lower, a) {
        let (p, q) = choose|p: Seq<char>, q: Seq<char>| a == #[trigger] (p + lower + q);
        let n = p.len() as int;
        let m = n + lower.len() as int;
        assert(a.len() == answer.len());
        let word = answer.subrange(n, m);
        assert(answer =~= answer.take(n) + word + answer.skip(m));
        assert(ascii_lowercase(word) =~= lower) by {
            assert forall|i: int| 0 <= i < word.len() implies ascii_lowercase(word)[i]
                == lower[i] by {
                assert(word[i] == answer[n + i]);
                assert(a[n + i] == crate::case::ascii_lower(answer[n + i]));
                assert((p + lower + q)[n + i] == lower[i]);
            }
        }
        lemma_alike_texts(word, lower);
        assert(answer == answer.take(n) + word + answer.skip(m) && alike_texts(word, lower));
    }
    if exists|p: Seq<char>, word: Seq<char>, q: Seq<char>|
        answer == #[trigger] (p + word + q) && alike_texts(word, lower) {
        let (p, word, q) = choose|p: Seq<char>, word: Seq<char>, q: Seq<char>|
            answer == #[trigger] (p + word + q) && alike_texts(word, lower);
        lemma_alike_texts(word, lower);
        assert(a =~= ascii_lowercase(p) + lower + ascii_lowercase(q));
        assert(stands_in(lower, a));
    }
}

proof fn lemma_lower_words()
    ensures
        ascii_lowercase("error"@) == "error"@,
        ascii_lowercase("failed"@) == "failed"@,
        ascii_lowercase("invalid context"@) == "invalid context"@,
        ascii_lowercase("did not apply"@) == "did not apply"@,
        ascii_lowercase("exception"@) == "exception"@,
{
    reveal_strlit("error");
    reveal_strlit("failed");
    reveal_strlit("invalid context");
    reveal_strlit("did not apply");
    reveal_strlit("exception");
    assert(ascii_lowercase("error"@) =~= "error"@);
    assert(ascii_lowercase("failed"@) =~= "failed"@);
    assert(ascii_lowercase("invalid context"@) =~= "invalid context"@);
    assert(ascii_lowercase("did not apply"@) =~= "did not apply"@);
    assert(ascii_lowercase("exception"@) =~= "exception"@);
}

/// An answer is clean exactly where it tells of no failure, in any case and
/// anywhere.
pub proof fn law_clean_answers(answer: Seq<char>)
    ensures
        no_failure(answer) <==> !tells_of_failure(answer),
{
    lemma_lower_words();
    lemma_word_in_any_case(answer, "error"@);
    lemma_word_in_any_case(answer, "failed"@);
    lemma_word_in_any_case(answer, "invalid context"@);
    lemma_word_in_any_case(answer, "did not apply"@);
    lemma_word_in_any_case(answer, "exception"@);
    let lower = ascii_lowercase(answer);
    reveal_strlit("patch failed");
    reveal_strlit("failed");
    law_has_text(lower, "patch failed"@);
    law_has_text(lower, "failed"@);
    if stands_in("patch failed"@, lower) {
        let (p, q) = choose|p: Seq<char>, q: Seq<char>| lower == #[trigger] (p + "patch failed"@
            + q);
        let front = p + "patch failed"@.take(6);
        assert("patch failed"@ =~= "patch failed"@.take(6) + "failed"@);
        assert(lower =~= front + "failed"@ + q);
        assert(stands_in("failed"@, lower));
    }
    if tells_of_failure(answer) {
        let (p, word, q) = choose|p: Seq<char>, word: Seq<char>, q: Seq<char>|
            answer == #[trigger] (p + word + q) && (alike_texts(word, "error"@) || alike_texts(
                word,
                "failed"@,
            ) || alike_texts(word, "invalid context"@) || alike_texts(word, "did not apply"@)
                || alike_texts(word, "exception"@));
        assert(answer == p + word + q);
    }
}

/// The files of a patch are checked where the tool was the patch tool and
/// answered without a failure; they are not where it told of one, gave no
/// answer, or the patch leaves no files.
pub proof fn law_edits_are_checked(
    input: InputView,
    command: Seq<char>,
    paths: Seq<Seq<char>>,
    answer: Seq<char>,
    response: Seq<char>,
)
    requires
        input.hook_event_name == Some("PostToolUse"@),
        input.tool_name == Some("apply_patch"@),
        input.tool_input == Some(Some(command)),
    ensures
        input.tool_response == Some(response) && compact_json(response) == Some(answer)
            && !tells_of_failure(answer) ==> plan_of(input, Some(paths)) == (PlanView::CheckEdit {
            session_id: input.session_id,
            turn_id: input.turn_id,
            cwd: input.cwd,
            paths,
        }),
        input.tool_response == Some(response) && compact_json(response) == Some(answer)
            && tells_of_failure(answer) ==> plan_of(input, Some(paths)) is Ignore,
        input.tool_response is None ==> plan_of(input, Some(paths)) is Ignore,
        plan_of(input, None) is Ignore,
{
    lemma_events();
    law_clean_answers(answer);
}

/// A shell command that is understood is run in its place, with the operation
/// that it is understood as; one that is not is noted or left alone. Other
/// tools, and other events, are left alone.
pub proof fn law_commands_are_run(
    input: InputView,
    command: Seq<char>,
    paths: Option<Seq<Seq<char>>>,
    operation: OperationView,
    detail: UnknownView,
)
    requires
        input.tool_input == Some(Some(command)),
    ensures
        ({
            let before = input.hook_event_name == Some("PreToolUse"@) && (input.tool_name is None
                || input.tool_name == Some("Bash"@));
            let context = ContextView {
                session_id: input.session_id,
                turn_id: input.turn_id,
                model: input.model,
                cwd: input.cwd,
            };
            &&& (before || input.hook_event_name is None) && decision_of(command, input.cwd)
                == DecisionView::Fast(operation) ==> plan_of(input, paths) == (PlanView::Execute {
                command,
                operation,
                context,
            })
            &&& (before || input.hook_event_name is None) && decision_of(command, input.cwd)
                == DecisionView::UnknownCandidate(detail) ==> plan_of(input, paths) == (
            PlanView::LogUnknown { command, detail, context })
            &&& (before || input.hook_event_name is None) && decision_of(
                command,
                input.cwd,
            ) is PassThrough ==> plan_of(input, paths) is Ignore
            &&& input.hook_event_name == Some("PreToolUse"@) && !before ==> plan_of(
                input,
                paths,
            ) is Ignore
        }),
{
    lemma_events();
}

// Outputs.

/// What the hook prints is a decision to block with a reason, or a context
/// for a prompt, each as one JSON object.
pub proof fn law_outputs(reason: Seq<char>, context: Seq<char>, findings: Seq<char>)
    ensures
        block_output(reason) == "{\"decision\":\"block\",\"reason\":"@ + json_string(reason)
            + "}"@,
        prompt_output(context) == "{\"hookSpecificOutput\":{\"additionalContext\":"@ + json_string(
            context,
        ) + ",\"hookEventName\":\"UserPromptSubmit\"}}"@,
        edit_output(findings)
            == "{\"decision\":\"block\",\"hookSpecificOutput\":{\"additionalContext\":"@
            + json_string(findings) + ",\"hookEventName\":\"PostToolUse\"},\"reason\":"@
            + json_string("slowcatch_post_edit_check v1 issues\n\n"@ + findings) + "}"@,
{
}

/// A search for files that finds some is shown with how many they are, and
/// one on a line; so is a search in files, the reading of lines, and a window
/// of lines. The command is blocked with that text.
pub proof fn law_found_lines(
    operation: OperationView,
    command: Seq<char>,
    context: ContextView,
    lines: Seq<Seq<char>>,
)
    requires
        operation is Find || operation is ReadLines || operation is Slice,
        0 < lines.len() <= usize::MAX,
        joined(lines, seq!['\n']).len() > 0,
    ensures
        ({
            let word = if operation is Find {
                "find"@
            } else if operation is ReadLines {
                "read_lines"@
            } else {
                "slice"@
            };
            run_plan(
                PlanView::Execute { command, operation, context },
                seq![AnswerView::Lines(lines)],
            ) == HookRun::Done(
                Some(
                    block_output(
                        "FAST_PATH_SUCCESS: executed slowcatch substitute output; do not retry the original command.\n\n"@
                            + joined(
                            seq![
                                "slowcatch_result v1 text"@,
                                "kind="@ + word + " status=ok items="@ + decimal(lines.len()),
                                Seq::empty(),
                                joined(lines, seq!['\n']),
                            ],
                            seq!['\n'],
                        ),
                    ),
                ),
            )
        }),
{
    reveal_strlit("\n");
    assert("\n"@ =~= seq!['\n']);
    lemma_found_header(kind_of(operation), lines);
    assert(leaf_result(operation, AnswerView::Lines(lines)) == LeafRun::Done(
        result_of_lines(kind_of(operation), lines),
    ));
}

proof fn lemma_found_header(kind: Seq<char>, lines: Seq<Seq<char>>)
    requires
        0 < lines.len() <= usize::MAX,
    ensures
        joined(lines, "\n"@).len() > 0 ==> result_lines(result_of_lines(kind, lines)) == seq![
            "slowcatch_result v1 text"@,
            "kind="@ + kind + " status=ok items="@ + decimal(lines.len()),
            Seq::empty(),
            joined(lines, "\n"@),
        ],
{
    reveal_strlit(" status=");
    reveal_strlit("ok");
    reveal_strlit(" items=");
    reveal_strlit(" status=ok items=");
    assert(" status=ok items="@ =~= " status="@ + "ok"@ + " items="@);
    let result = result_of_lines(kind, lines);
    assert(header(result.head) =~= "kind="@ + kind + " status=ok items="@ + decimal(lines.len()));
    if joined(lines, "\n"@).len() > 0 {
        assert(result_lines(result) =~= seq![
            "slowcatch_result v1 text"@,
            "kind="@ + kind + " status=ok items="@ + decimal(lines.len()),
            Seq::empty(),
            joined(lines, "\n"@),
        ]);
    }
}

/// Before an operation has its answer it asks for it, and nothing else.
pub proof fn law_operation_asks_once(operation: OperationView, answer: AnswerView)
    requires
        !(operation is CommandList) && !(operation is MiniScript),
    ensures
        run_operation(operation, Seq::empty(), 0) == OperationRun::Ask(
            RequestView::Operation(operation),
        ),
        !(run_operation(operation, seq![answer], 0) is Ask),
{
}

/// An operation that finds nothing says so, whatever it is.
pub proof fn law_nothing_found(operation: OperationView)
    requires
        operation is Find || operation is ReadLines || operation is Slice,
    ensures
        run_operation(operation, seq![AnswerView::Lines(Seq::empty())], 0) == OperationRun::Done(
            ResultView {
                head: PartView {
                    kind: kind_of(operation),
                    status: HookStatus::Empty,
                    items: Some(0),
                    omitted: None,
                    metadata: Seq::empty(),
                    body: "no results"@,
                },
                segments: Seq::empty(),
            },
            1,
        ),
{
    let none = Seq::<Seq<char>>::empty();
    assert(leaf_result(operation, AnswerView::Lines(none)) == LeafRun::Done(
        result_of_lines(kind_of(operation), none),
    ));
}

/// A search in files shows each match as its path, its line number and its
/// line.
pub proof fn law_found_matches(operation: OperationView, matches: Seq<MatchView>, i: int)
    requires
        operation is Grep,
        0 <= i < matches.len() <= usize::MAX,
    ensures
        run_operation(operation, seq![AnswerView::Matches(matches)], 0) matches OperationRun::Done(
            result,
            _,
        ) && result.head.kind == "grep"@ && result.head.status == HookStatus::Found
            && result.head.items == Some(matches.len() as usize) && exists|rows: Seq<Seq<char>>|
            rows.len() == matches.len() && result.head.body == #[trigger] joined(
                rows,
                seq!['\n'],
            ) && rows[i] == matches[i].path + seq![':'] + decimal(matches[i].line_number)
                + seq![':'] + matches[i].line,
{
    reveal_strlit("\n");
    reveal_strlit(":");
    assert("\n"@ =~= seq!['\n']);
    assert(":"@ =~= seq![':']);
    let rows = super::execution::match_texts(matches);
    assert(rows[i] =~= matches[i].path + seq![':'] + decimal(matches[i].line_number) + seq![':']
        + matches[i].line);
    assert(leaf_result(operation, AnswerView::Matches(matches)) == LeafRun::Done(
        result_of_lines("grep"@, rows),
    ));
    assert(result_of_lines("grep"@, rows).head.body == joined(rows, seq!['\n']));
}

/// Whether a line of a body counts what is left out.
pub open spec fn counts_omitted(line: Seq<char>) -> bool {
    exists|value: Seq<char>| line == #[trigger] ("omitted_count="@ + value)
}

proof fn lemma_counts_omitted(line: Seq<char>)
    ensures
        counts_omitted(line) <==> after_prefix(line, "omitted_count="@) is Some,
{
    let word = "omitted_count="@;
    if after_prefix(line, word) is Some {
        assert(line =~= word + line.skip(word.len() as int)) by {
            assert forall|i: int| 0 <= i < word.len() implies line[i] == word[i] by {
                assert(line.subrange(0, word.len() as int)[i] == line[i]);
            }
        }
        assert(counts_omitted(line));
    }
    if counts_omitted(line) {
        let value = choose|value: Seq<char>| line == #[trigger] (word + value);
        law_ends(word, value);
    }
}

/// The body of a result is its lines without those that count what is left
/// out; its items are the lines that are not blank and no separators.
pub proof fn law_body(lines: Seq<Seq<char>>)
    ensures
        body_of(lines).lines == lines.filter(|line: Seq<char>| !counts_omitted(line)),
        body_of(lines).items == lines.filter(
            |line: Seq<char>|
                !counts_omitted(line) && trimmed(line).len() > 0 && line != seq!['-', '-'],
        ).len(),
    decreases lines.len(),
{
    reveal(Seq::filter);
    reveal_strlit("--");
    assert("--"@ =~= seq!['-', '-']);
    if lines.len() > 0 {
        law_body(lines.drop_last());
        lemma_counts_omitted(lines.last());
    }
}

/// How many items were left out is what the last line says that counts them.
pub proof fn law_omitted(lines: Seq<Seq<char>>, n: usize, line: Seq<char>)
    ensures
        body_of(lines.push("omitted_count="@ + decimal(n as nat))).omitted == Some(n),
        !counts_omitted(line) ==> body_of(lines.push(line)).omitted == body_of(lines).omitted,
{
    let word = "omitted_count="@;
    let value = decimal(n as nat);
    law_ends(word, value);
    law_number_round_trip(n);
    assert((word + value).skip(word.len() as int) =~= value);
    assert(lines.push(word + value).drop_last() =~= lines);
    assert(lines.push(line).drop_last() =~= lines);
    lemma_counts_omitted(line);
}

/// The steps of a list are run in order, and each result is shown under its
/// number; the list has something to show where one of its steps has.
pub proof fn law_steps(results: Seq<ResultView>, i: int)
    requires
        0 <= i < results.len() <= usize::MAX,
    ensures
        ({
            let all = result_of_segments("command_list"@, results);
            &&& all.segments.len() == results.len()
            &&& all.segments[i] == results[i].head
            &&& all.head.items == Some(results.len() as usize)
            &&& results[i].head.status == HookStatus::Found ==> all.head.status
                == HookStatus::Found
            &&& segment_lines(all.segments[i], i).contains(
                "segment "@ + decimal((i + 1) as nat) + " "@ + header(results[i].head),
            )
            &&& results[i].head.body.len() > 0 ==> segment_lines(all.segments[i], i).last()
                == results[i].head.body
        }),
{
    let all = result_of_segments("command_list"@, results);
    let part = all.segments[i];
    let lines = segment_lines(part, i);
    let title = "segment "@ + decimal((i + 1) as nat) + " "@ + header(part);
    if i > 0 {
        assert(lines[1] == title);
    } else {
        assert(lines[0] == title);
    }
}

/// A list runs its steps one after the other: each gets the answers behind
/// those of the steps before it, and the list ends where a step fails.
pub proof fn law_steps_in_order(
    segments: Seq<SegmentView>,
    segment: SegmentView,
    answers: Seq<AnswerView>,
    at: nat,
)
    ensures
        ({
            let before = run_segments(segments, segments.len(), answers, at);
            let all = run_segments(segments.push(segment), segments.len() + 1, answers, at);
            match before {
                StepsRun::Done(results, next) => match super::execution::run_segment(
                    segment,
                    answers,
                    next,
                ) {
                    OperationRun::Done(result, after) => all == StepsRun::Done(
                        results.push(result),
                        after,
                    ),
                    OperationRun::Failed(message) => all == StepsRun::Failed(message),
                    OperationRun::Ask(request) => all == StepsRun::Ask(request),
                },
                other => all == other,
            }
        }),
{
    lemma_same_start(segments, segments.push(segment), segments.len(), answers, at);
}

proof fn lemma_same_start(
    a: Seq<SegmentView>,
    b: Seq<SegmentView>,
    n: nat,
    answers: Seq<AnswerView>,
    at: nat,
)
    requires
        n <= a.len(),
        n <= b.len(),
        forall|i: int| 0 <= i < n ==> a[i] == b[i],
    ensures
        run_segments(a, n, answers, at) == run_segments(b, n, answers, at),
    decreases n,
{
    if n > 0 {
        lemma_same_start(a, b, (n - 1) as nat, answers, at);
        assert(a[n - 1] == b[n - 1]);
    }
}

/// The operations are named in what the hook prints and notes.
pub proof fn law_operation_names(command: Seq<char>, operation: OperationView, message: Seq<char>)
    ensures
        operation is Find ==> kind_of(operation) == "find"@,
        operation is FindProjection ==> kind_of(operation) == "find_projection"@,
        operation is FindPipeline ==> kind_of(operation) == "find_pipeline"@,
        operation is FindMeasure ==> kind_of(operation) == "find_measure"@,
        operation is DirectProjection ==> kind_of(operation) == "direct_projection"@,
        operation is Grep ==> kind_of(operation) == "grep"@,
        operation is GrepContext ==> kind_of(operation) == "grep_context"@,
        operation is InspectFile ==> kind_of(operation) == "inspect_file"@,
        operation is ReadLines ==> kind_of(operation) == "read_lines"@,
        operation is Slice ==> kind_of(operation) == "slice"@,
        operation is ListDirectory ==> kind_of(operation) == "list_directory"@,
        operation is ListDirectoryPipeline ==> kind_of(operation) == "list_directory_pipeline"@,
        operation is CommandList ==> kind_of(operation) == "command_list"@,
        operation is MiniScript ==> kind_of(operation) == "mini_script"@,
        failure_detail(command, operation, message).reason == "fast_path_backend_failure:"@
            + kind_of(operation) + ": "@ + message,
        failure_detail(command, operation, message).normalized_shape == "fast_path_failure:"@
            + kind_of(operation),
{
}

// Programs.

/// Of all program calls only four are allowed: the short status of a
/// repository, its status for scripts, the statistics of its changes, and its
/// last one to fifty log entries.
pub proof fn law_allowed_programs(external: ReadOnlyExternalView, count: usize)
    ensures
        allowlisted(external) ==> external.program == "git"@ && (external.args == seq![
            "status"@,
            "--short"@,
        ] || external.args == seq!["status"@, "--porcelain"@] || external.args == seq![
            "status"@,
            "--porcelain=v1"@,
        ] || external.args == seq!["status"@, "--porcelain=v2"@] || external.args == seq![
            "diff"@,
            "--stat"@,
        ] || (external.args.len() == 4 && external.args.take(3) == seq![
            "log"@,
            "--oneline"@,
            "-n"@,
        ])),
        allowlisted(
            ReadOnlyExternalView { program: "git"@, args: seq!["status"@, "--short"@] },
        ),
        allowlisted(
            ReadOnlyExternalView { program: "git"@, args: seq!["status"@, "--porcelain"@] },
        ),
        allowlisted(
            ReadOnlyExternalView { program: "git"@, args: seq!["status"@, "--porcelain=v1"@] },
        ),
        allowlisted(
            ReadOnlyExternalView { program: "git"@, args: seq!["status"@, "--porcelain=v2"@] },
        ),
        allowlisted(ReadOnlyExternalView { program: "git"@, args: seq!["diff"@, "--stat"@] }),
        allowlisted(
            ReadOnlyExternalView {
                program: "git"@,
                args: seq!["log"@, "--oneline"@, "-n"@, decimal(count as nat)],
            },
        ) <==> 1 <= count <= 50,
{
    law_number_round_trip(count);
    let args = external.args;
    if allowlisted(external) {
        if args.len() == 2 {
            assert(args =~= seq![args[0], args[1]]);
        } else {
            assert(args.take(3) =~= seq![args[0], args[1], args[2]]);
        }
    }
}

} // verus!
