//! What holds of all runs of operations: what they ask, in which order, and
//! what they make of the answers.
use super::execution::{
    external_refusal, kind_of, leaf_result, run_branches, run_condition, run_external,
    run_operation, run_segment, script_result, AnswerView, BranchRun, ConditionRun, LeafRun,
    OperationRun, PathKind, RequestView,
};
use super::hook_result::{PartView, ResultView};
use crate::backends::directory::{listing_text, DirectoryListView, EntryView};
use crate::backends::grep::{GrepQueryView, MatchView};
use crate::backends::projection::ReadOnlyExternalView;
use crate::number::{decimal, law_number_round_trip};
use crate::shell_parse::filters::allowlisted;
use crate::shell_parse::operation::{
    BranchView, ConditionView, OperationView, SegmentView, TestPathType,
};
use vstd::prelude::*;
use vstd::string::*;

verus! {

// Programs.

/// A program that is allowed is run once, and its output is the result; one
/// that is not is refused without being run.
pub proof fn law_external_runs(
    external: ReadOnlyExternalView,
    answers: Seq<AnswerView>,
    text: Seq<char>,
    message: Seq<char>,
)
    ensures
        allowlisted(external) ==> {
            &&& run_external(external, answers, answers.len()) == OperationRun::Ask(
                RequestView::External(external),
            )
            &&& run_external(external, answers.push(AnswerView::Text(text)), answers.len())
                == OperationRun::Done(
                super::hook_result::result_of_body("readonly_external"@, text),
                answers.len() + 1,
            )
            &&& run_external(external, answers.push(AnswerView::Failed(message)), answers.len())
                == OperationRun::Failed(message)
        },
        !allowlisted(external) ==> run_external(external, answers, answers.len()) is Failed
            && run_external(external, answers.push(AnswerView::Text(text)), answers.len())
            is Failed,
        run_segment(SegmentView::ReadOnlyExternal(external), answers, answers.len())
            == run_external(external, answers, answers.len()),
{
}

/// A refusal says whether the program, the command or the count is wrong.
pub proof fn law_refusals(args: Seq<Seq<char>>, program: Seq<char>, count: usize, word: Seq<char>)
    requires
        program != "git"@,
        args.len() != 4,
        crate::number::read_unsigned(word) is None,
    ensures
        external_refusal(ReadOnlyExternalView { program, args }).words()
            == "external program is not allowlisted"@,
        external_refusal(ReadOnlyExternalView { program: "git"@, args }).words()
            == "external command is not allowlisted"@,
        external_refusal(
            ReadOnlyExternalView {
                program: "git"@,
                args: seq!["log"@, "--oneline"@, "-n"@, word],
            },
        ).words() == "git log count is not a number"@,
        external_refusal(
            ReadOnlyExternalView {
                program: "git"@,
                args: seq!["log"@, "--oneline"@, "-n"@, decimal(count as nat)],
            },
        ).words() == "git log count is outside 1..=50"@,
{
    law_number_round_trip(count);
}

// Single steps.

/// A step that failed fails with the message that it was given, whatever the
/// step is.
pub proof fn law_failed_steps(operation: OperationView, answers: Seq<AnswerView>, message: Seq<char>)
    requires
        !(operation is CommandList) && !(operation is MiniScript),
    ensures
        leaf_result(operation, AnswerView::Failed(message)) == LeafRun::Failed(message),
        run_operation(operation, answers.push(AnswerView::Failed(message)), answers.len())
            == OperationRun::Failed(message),
{
}

/// A listing of what is no directory fails and names it.
pub proof fn law_no_directory(
    list: DirectoryListView,
    entries: Seq<EntryView>,
    query: GrepQueryView,
    matches: Seq<MatchView>,
)
    ensures
        leaf_result(
            OperationView::ListDirectory(list),
            AnswerView::Entries { is_dir: false, entries },
        ) == LeafRun::Failed("not a directory: "@ + list.root),
        leaf_result(
            OperationView::ListDirectory(list),
            AnswerView::Entries { is_dir: true, entries },
        ) == LeafRun::Done(
            super::hook_result::result_of_body("list_directory"@, listing_text(list, entries)),
        ),
        leaf_result(OperationView::Grep(query), AnswerView::Matches(matches)) == LeafRun::Done(
            super::hook_result::result_of_lines(
                "grep"@,
                matches.map_values(|m: MatchView| crate::backends::grep::tool_text(m)),
            ),
        ),
{
}

/// Lines that were read or found are the result of a step that asks for lines.
pub proof fn law_line_steps(operation: OperationView, lines: Seq<Seq<char>>)
    requires
        operation is Find || operation is ReadLines || operation is Slice,
    ensures
        leaf_result(operation, AnswerView::Lines(lines)) == LeafRun::Done(
            super::hook_result::result_of_lines(kind_of(operation), lines),
        ),
{
}

// Conditions.

/// Of two conditions the first is tested first, and the second only where the
/// first leaves the answer open.
pub proof fn law_lazy_conditions(
    p: Seq<char>,
    q: Seq<char>,
    kind: PathKind,
    other: Option<PathKind>,
)
    ensures
        ({
            let a = ConditionView::TestPath { path: p, path_type: TestPathType::Any };
            let b = ConditionView::TestPath { path: q, path_type: TestPathType::Any };
            let both = ConditionView::And(Box::new(a), Box::new(b));
            let either = ConditionView::Or(Box::new(a), Box::new(b));
            let there = AnswerView::Found(Some(kind));
            let missing = AnswerView::Found(None);
            &&& run_condition(both, Seq::empty(), 0) == ConditionRun::Ask(p)
            &&& run_condition(both, seq![missing], 0) == ConditionRun::Done(false, 1)
            &&& run_condition(both, seq![there], 0) == ConditionRun::Ask(q)
            &&& run_condition(both, seq![there, AnswerView::Found(other)], 0)
                == ConditionRun::Done(other is Some, 2)
            &&& run_condition(either, Seq::empty(), 0) == ConditionRun::Ask(p)
            &&& run_condition(either, seq![there], 0) == ConditionRun::Done(true, 1)
            &&& run_condition(either, seq![missing], 0) == ConditionRun::Ask(q)
            &&& run_condition(either, seq![missing, AnswerView::Found(other)], 0)
                == ConditionRun::Done(other is Some, 2)
        }),
{
    reveal_with_fuel(run_condition, 3);
}

/// A test that cannot be made fails with its message, and so does every
/// condition that needs it.
pub proof fn law_failed_tests(
    p: Seq<char>,
    path_type: TestPathType,
    other: ConditionView,
    message: Seq<char>,
)
    ensures
        ({
            let a = ConditionView::TestPath { path: p, path_type };
            let failed = seq![AnswerView::Failed(message)];
            &&& run_condition(a, failed, 0) == ConditionRun::Failed(message)
            &&& run_condition(ConditionView::Not(Box::new(a)), failed, 0) == ConditionRun::Failed(
                message,
            )
            &&& run_condition(ConditionView::And(Box::new(a), Box::new(other)), failed, 0)
                == ConditionRun::Failed(message)
            &&& run_condition(ConditionView::Or(Box::new(a), Box::new(other)), failed, 0)
                == ConditionRun::Failed(message)
        }),
{
    reveal_with_fuel(run_condition, 3);
}

// Scripts.

/// A script shows what its branch shows: one command as itself under the name
/// of the script, several as its parts, and none as nothing.
pub proof fn law_script_results(one: ResultView, two: ResultView)
    ensures
        script_result(seq![one]) == (ResultView {
            head: PartView { kind: "mini_script"@, ..one.head },
            segments: one.segments,
        }),
        script_result(seq![one, two]) == super::hook_result::result_of_segments(
            "mini_script"@,
            seq![one, two],
        ),
        script_result(Seq::empty()).head.body == "no results"@,
        script_result(Seq::empty()).head.items == Some(0usize),
        script_result(Seq::empty()).head.kind == "mini_script"@,
{
}

/// A script asks for its tests before anything else, and shows nothing where
/// no branch is taken.
pub proof fn law_script_runs(path: Seq<char>, branch: BranchView, kind: PathKind)
    requires
        branch.condition == Some(
            ConditionView::TestPath { path, path_type: TestPathType::Any },
        ),
    ensures
        ({
            let script = OperationView::MiniScript(seq![branch]);
            &&& run_operation(script, Seq::empty(), 0) == OperationRun::Ask(
                RequestView::TestPath(path),
            )
            &&& run_operation(script, seq![AnswerView::Found(None)], 0) matches OperationRun::Done(
                result,
                next,
            ) && next == 1 && result.head.body == "no results"@ && result.segments.len() == 0
            &&& run_operation(script, seq![AnswerView::Found(Some(kind))], 0)
                == super::execution::run_branch(branch, seq![AnswerView::Found(Some(kind))], 1)
        }),
{
    let branches = seq![branch];
    reveal_with_fuel(run_branches, 3);
    reveal_with_fuel(run_condition, 2);
    assert(branches[0] == branch);
    assert(run_branches(branches, 0, Seq::empty(), 0) == BranchRun::Ask(path));
    assert(run_branches(branches, 0, seq![AnswerView::Found(None)], 0) == BranchRun::Done(None, 1));
    assert(run_branches(branches, 0, seq![AnswerView::Found(Some(kind))], 0) == BranchRun::Done(
        Some(0int),
        1,
    ));
}

} // verus!
